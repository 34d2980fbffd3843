use dice::key::DiceKey;
use dice::registry::DiceKeyIndex;
use dice::registry::ErasedKey;

fn id(kind: u64, repr: &[u8]) -> ErasedKey {
    ErasedKey::new(kind, repr.to_vec())
}

#[test]
fn a_new_registry_has_seen_nothing() {
    let index = DiceKeyIndex::new();
    assert_eq!(index.len(), 0);
    assert!(!index.is_full());
    assert!(index.get(DiceKey::new(0)).is_none());
    assert_eq!(index.lookup(&id(1, b"a")), None);
}

#[test]
fn the_same_identity_gets_the_same_handle() {
    let mut index = DiceKeyIndex::new();
    let a = index.intern(id(1, b"a"));
    let b = index.intern(id(1, b"b"));
    assert_eq!(a, DiceKey::new(0));
    assert_eq!(b, DiceKey::new(1));
    assert_eq!(index.intern(id(1, b"a")), a);
    assert_eq!(index.intern(id(1, b"b")), b);
    assert_eq!(index.len(), 2);
}

#[test]
fn identities_of_different_kinds_are_different() {
    let mut index = DiceKeyIndex::new();
    let a = index.intern(id(1, b"a"));
    let other = index.intern(id(2, b"a"));
    let longer = index.intern(id(1, b"ab"));
    let empty = index.intern(id(1, b""));
    assert_ne!(a, other);
    assert_ne!(a, longer);
    assert_ne!(a, empty);
    assert_eq!(index.len(), 4);
}

#[test]
fn a_handle_leads_back_to_its_identity() {
    let mut index = DiceKeyIndex::new();
    index.intern(id(1, b"a"));
    let b = index.intern(id(7, b"bc"));
    let found = index.get(b).unwrap();
    assert_eq!(found.kind, 7);
    assert_eq!(found.repr, b"bc".to_vec());
    assert_eq!(index.lookup(&id(7, b"bc")), Some(b));
    assert!(index.get(DiceKey::new(2)).is_none());
    assert!(id(7, b"bc").same(found));
    assert!(!id(7, b"bd").same(found));
}
