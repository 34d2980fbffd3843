//! The rules behind the natives `provider` and `transitive_set`: which
//! declarations they take and what they make of them.

use starlark_map::small_map::SmallMap;
use starlark_map::small_set::SmallSet;
use vstd::prelude::*;

verus! {

/// `starlark_map::small_set::SmallSet`, a set that keeps the order of
/// insertion. Nothing is known of a value of it but what the functions
/// below say.
#[verifier::external_type_specification]
#[verifier::external_body]
#[verifier::reject_recursive_types(T)]
pub struct ExSmallSet<T>(SmallSet<T>);

/// `starlark_map::small_map::SmallMap`, a map that keeps the order of
/// insertion. Nothing is known of a value of it but what the functions
/// below, and those of the install provider, say.
#[verifier::external_type_specification]
#[verifier::external_body]
#[verifier::reject_recursive_types(K)]
#[verifier::reject_recursive_types(V)]
pub struct ExSmallMap<K, V>(SmallMap<K, V>);

/// The set of the field names of a provider.
pub type FieldNames = SmallSet<String>;

/// The names that a set holds, in the order in which they were inserted.
pub uninterp spec fn set_names(set: FieldNames) -> Seq<Seq<char>>;

/// `SmallSet::with_capacity`: a set that holds nothing.
#[verifier::external_body]
fn names_with_capacity(n: usize) -> (set: FieldNames)
    ensures
        set_names(set).len() == 0,
{
    SmallSet::with_capacity(n)
}

/// `SmallSet::insert`: a name that the set does not hold is added at the
/// end and `true` comes back; a name that it holds leaves the set as it is
/// and `false` comes back.
#[verifier::external_body]
fn names_insert(set: &mut FieldNames, name: String) -> (inserted: bool)
    ensures
        inserted == !set_names(*old(set)).contains(name@),
        set_names(*final(set)) == (if set_names(*old(set)).contains(name@) {
            set_names(*old(set))
        } else {
            set_names(*old(set)).push(name@)
        }),
{
    set.insert(name)
}

/// `SmallSet::len`: the number of names in the set.
#[verifier::external_body]
fn names_len(set: &FieldNames) -> (n: usize)
    ensures
        n == set_names(*set).len(),
{
    set.len()
}

/// What went wrong in a native.
#[derive(Debug)]
pub enum NativesError {
    /// The fields of a provider were given as a list in which a name occurs
    /// twice; it carries the list.
    NonUniqueFields(Vec<String>),
    /// `transitive_set()` was called outside a `bzl` file.
    TransitiveSetOnlyInBzl,
}

/// How the fields of a provider are declared: as a list of names, or name
/// by name with a doc string each.
#[derive(Debug)]
pub enum FieldsSpec {
    Names(Vec<String>),
    Documented(Vec<(String, String)>),
}

/// The fields of a provider: their names, each once, and for each name in
/// that order its doc string, if it was declared with one.
pub struct ProviderFields {
    pub names: FieldNames,
    pub docs: Vec<Option<String>>,
}

/// The strings of a list, as values.
pub open spec fn texts(list: Seq<String>) -> Seq<Seq<char>> {
    Seq::new(list.len(), |i: int| list[i]@)
}

/// The names of a documented declaration, as values.
pub open spec fn declared_names(list: Seq<(String, String)>) -> Seq<Seq<char>> {
    Seq::new(list.len(), |i: int| list[i].0@)
}

/// Whether `doc` is the doc string `text`.
pub open spec fn documents(doc: Option<String>, text: Seq<char>) -> bool {
    doc matches Some(doc) && doc@ == text
}

/// The fields that a declaration makes.
///
/// A list of names makes one field per name and no doc strings; it is
/// refused with `NonUniqueFields`, which hands the list back, if and only
/// if a name occurs in it twice. A documented declaration, whose names are
/// distinct by construction, makes one field per entry with its doc
/// string.
pub fn provider(fields: FieldsSpec) -> (made: Result<ProviderFields, NativesError>)
    requires
        fields matches FieldsSpec::Documented(list) ==> declared_names(list@).no_duplicates(),
    ensures
        match fields {
            FieldsSpec::Names(list) => match made {
                Ok(made) => {
                    &&& texts(list@).no_duplicates()
                    &&& set_names(made.names) == texts(list@)
                    &&& made.docs@ == Seq::new(list@.len(), |i: int| None::<String>)
                },
                Err(error) => {
                    &&& !texts(list@).no_duplicates()
                    &&& error matches NativesError::NonUniqueFields(given)
                    &&& given == list
                },
            },
            FieldsSpec::Documented(list) => {
                &&& made matches Ok(made)
                &&& set_names(made.names) == declared_names(list@)
                &&& made.docs@.len() == list@.len()
                &&& forall|i: int|
                    0 <= i < list@.len() ==> documents(#[trigger] made.docs@[i], list@[i].1@)
            },
        },
{
    match fields {
        FieldsSpec::Names(list) => {
            let mut names = names_with_capacity(list.len());
            let mut docs: Vec<Option<String>> = Vec::new();
            let mut i: usize = 0;
            while i < list.len()
                invariant
                    0 <= i <= list@.len(),
                    docs@ == Seq::new(i as nat, |j: int| None::<String>),
                    set_names(names).len() <= i,
                    set_names(names).len() == i ==> set_names(names) == texts(list@).take(i as int),
                    set_names(names).len() == i ==> texts(list@).take(i as int).no_duplicates(),
                    set_names(names).len() < i ==> !texts(list@).no_duplicates(),
                decreases list@.len() - i,
            {
                let ghost before = set_names(names);
                let ghost upto = texts(list@).take(i as int);
                let inserted = names_insert(&mut names, list[i].clone());
                docs.push(None);
                proof {
                    let name = list@[i as int]@;
                    assert(texts(list@)[i as int] == name);
                    let next = texts(list@).take(i + 1);
                    assert(next =~= upto.push(name));
                    if before.len() == i {
                        if inserted {
                            assert(set_names(names) == next);
                            assert forall|a: int, b: int|
                                0 <= a < next.len() && 0 <= b < next.len() && a != b implies next[a]
                                != next[b] by {
                                if a < i && b < i {
                                    assert(upto[a] != upto[b]);
                                } else if a < i {
                                    assert(upto.contains(upto[a]));
                                } else {
                                    assert(upto.contains(upto[b]));
                                }
                            }
                        } else {
                            let at = choose|at: int| 0 <= at < upto.len() && upto[at] == name;
                            assert(texts(list@)[at] == texts(list@)[i as int]);
                        }
                    }
                    assert(docs@ =~= Seq::new((i + 1) as nat, |j: int| None::<String>));
                }
                i = i + 1;
            }
            assert(texts(list@).take(list@.len() as int) =~= texts(list@));
            if names_len(&names) != list.len() {
                Err(NativesError::NonUniqueFields(list))
            } else {
                Ok(ProviderFields { names, docs })
            }
        },
        FieldsSpec::Documented(list) => {
            let mut names = names_with_capacity(list.len());
            let mut docs: Vec<Option<String>> = Vec::new();
            let mut i: usize = 0;
            while i < list.len()
                invariant
                    0 <= i <= list@.len(),
                    declared_names(list@).no_duplicates(),
                    set_names(names) == declared_names(list@).take(i as int),
                    docs@.len() == i,
                    forall|j: int| 0 <= j < i ==> documents(#[trigger] docs@[j], list@[j].1@),
                decreases list@.len() - i,
            {
                let ghost upto = declared_names(list@).take(i as int);
                let inserted = names_insert(&mut names, list[i].0.clone());
                docs.push(Some(list[i].1.clone()));
                proof {
                    let name = list@[i as int].0@;
                    assert(declared_names(list@)[i as int] == name);
                    if upto.contains(name) {
                        let at = choose|at: int| 0 <= at < upto.len() && upto[at] == name;
                        assert(declared_names(list@)[at] == declared_names(list@)[i as int]);
                    }
                    assert(declared_names(list@).take(i + 1) =~= upto.push(name));
                }
                i = i + 1;
            }
            assert(declared_names(list@).take(list@.len() as int) =~= declared_names(list@));
            Ok(ProviderFields { names, docs })
        },
    }
}

/// How a projection of a transitive set is rendered.
#[derive(Debug, Clone, Copy, PartialEq, Eq, Structural)]
pub enum TransitiveSetProjectionKind {
    Args,
    Json,
}

/// What the rules read of a value that was passed as a projection or a
/// reduction: a handle by which its owner finds it again, and the number of
/// parameters it takes, where it says so.
#[derive(Debug, Clone, Copy, PartialEq, Eq, Structural)]
pub struct CallableValue {
    pub handle: u64,
    pub parameters: Option<usize>,
}

/// A projection with its kind.
#[derive(Debug, Clone, Copy, PartialEq, Eq, Structural)]
pub struct TransitiveSetProjectionSpec {
    pub kind: TransitiveSetProjectionKind,
    pub projection: CallableValue,
}

/// The projections of a transitive set by name.
pub type Projections = SmallMap<String, TransitiveSetProjectionSpec>;

/// The entries of a map of projections, in the order in which their names
/// were first inserted.
pub uninterp spec fn map_entries(map: Projections) -> Seq<(Seq<char>, TransitiveSetProjectionSpec)>;

/// Whether `entries` holds an entry under `name`.
pub open spec fn has_name(
    entries: Seq<(Seq<char>, TransitiveSetProjectionSpec)>,
    name: Seq<char>,
) -> bool {
    exists|i: int| 0 <= i < entries.len() && (#[trigger] entries[i]).0 == name
}

/// The entries after `spec` was inserted under `name`: a name that is held
/// keeps its place and gets the new projection, a new name comes last.
pub open spec fn put(
    entries: Seq<(Seq<char>, TransitiveSetProjectionSpec)>,
    name: Seq<char>,
    spec: TransitiveSetProjectionSpec,
) -> Seq<(Seq<char>, TransitiveSetProjectionSpec)> {
    if has_name(entries, name) {
        entries.update(
            choose|i: int| 0 <= i < entries.len() && (#[trigger] entries[i]).0 == name,
            (name, spec),
        )
    } else {
        entries.push((name, spec))
    }
}

/// `SmallMap::new`: a map that holds nothing.
#[verifier::external_body]
fn projections_new() -> (map: Projections)
    ensures
        map_entries(map).len() == 0,
{
    SmallMap::new()
}

/// `SmallMap::insert`: the value under a key that the map holds is
/// replaced where it stands; a new key is added at the end with its value.
#[verifier::external_body]
fn projections_insert(map: &mut Projections, name: String, spec: TransitiveSetProjectionSpec)
    ensures
        map_entries(*final(map)) == put(map_entries(*old(map)), name@, spec),
{
    map.insert(name, spec);
}

/// `SmallMap::len`: the number of entries.
#[verifier::external_body]
fn projections_len(map: &Projections) -> (n: usize)
    ensures
        n == map_entries(*map).len(),
{
    map.len()
}

/// `SmallMap::get_index`: the entry at a position, or `None` past the end.
#[verifier::external_body]
fn projections_get_index(map: &Projections, index: usize) -> (entry: Option<
    (String, TransitiveSetProjectionSpec),
>)
    ensures
        entry_is(entry, map_entries(*map), index as int),
{
    match map.get_index(index) {
        Some((name, spec)) => Some((name.clone(), *spec)),
        None => None,
    }
}

/// Whether `entry` is what `entries` holds at `index`.
pub open spec fn entry_is(
    entry: Option<(String, TransitiveSetProjectionSpec)>,
    entries: Seq<(Seq<char>, TransitiveSetProjectionSpec)>,
    index: int,
) -> bool {
    match entry {
        Some(found) => 0 <= index < entries.len() && found.0@ == entries[index].0 && found.1
            == entries[index].1,
        None => !(0 <= index < entries.len()),
    }
}

/// What went wrong with a transitive set.
#[derive(Debug)]
pub enum TransitiveSetError {
    /// The projection of this name does not take exactly one parameter.
    ProjectionSignatureError { name: String },
}

/// Why `transitive_set` refused a declaration.
#[derive(Debug)]
pub enum TransitiveSetRefusal {
    Signature(TransitiveSetError),
    Natives(NativesError),
}

/// The operations of a transitive set.
pub struct TransitiveSetOperations {
    pub projections: Projections,
    pub reductions: Vec<(String, CallableValue)>,
}

/// The definition of a transitive set: the `bzl` file that declares it and
/// its operations.
pub struct TransitiveSetDefinition {
    pub import_path: String,
    pub operations: TransitiveSetOperations,
}

/// The entries after the first `upto` of `listed` were inserted as
/// projections of `kind`, in order.
pub open spec fn collected(
    entries: Seq<(Seq<char>, TransitiveSetProjectionSpec)>,
    listed: Seq<(String, CallableValue)>,
    kind: TransitiveSetProjectionKind,
    upto: int,
) -> Seq<(Seq<char>, TransitiveSetProjectionSpec)>
    decreases upto,
{
    if upto <= 0 {
        entries
    } else {
        put(
            collected(entries, listed, kind, upto - 1),
            listed[upto - 1].0@,
            TransitiveSetProjectionSpec { kind, projection: listed[upto - 1].1 },
        )
    }
}

/// What was listed, or nothing.
pub open spec fn listed_or_none(listed: Option<Vec<(String, CallableValue)>>) -> Seq<
    (String, CallableValue),
> {
    match listed {
        Some(listed) => listed@,
        None => Seq::empty(),
    }
}

/// The projections of a declaration: those for arguments first, then those
/// for JSON. A name that is declared twice keeps its first place and its
/// last projection.
pub open spec fn merged(
    args_projections: Option<Vec<(String, CallableValue)>>,
    json_projections: Option<Vec<(String, CallableValue)>>,
) -> Seq<(Seq<char>, TransitiveSetProjectionSpec)> {
    collected(
        collected(
            Seq::empty(),
            listed_or_none(args_projections),
            TransitiveSetProjectionKind::Args,
            listed_or_none(args_projections).len() as int,
        ),
        listed_or_none(json_projections),
        TransitiveSetProjectionKind::Json,
        listed_or_none(json_projections).len() as int,
    )
}

/// Whether a projection says how many parameters it takes, and that is not
/// one.
pub open spec fn bad_signature(spec: TransitiveSetProjectionSpec) -> bool {
    spec.projection.parameters matches Some(n) && n != 1
}

/// Whether `at` is the first projection with a bad signature.
pub open spec fn first_bad(entries: Seq<(Seq<char>, TransitiveSetProjectionSpec)>, at: int) -> bool {
    &&& 0 <= at < entries.len()
    &&& bad_signature(entries[at].1)
    &&& forall|i: int| 0 <= i < at ==> !bad_signature(#[trigger] entries[i].1)
}

/// Inserts `listed` into `map` as projections of `kind`, in order.
fn collect_projections(
    map: &mut Projections,
    listed: Option<Vec<(String, CallableValue)>>,
    kind: TransitiveSetProjectionKind,
)
    ensures
        map_entries(*final(map)) == collected(
            map_entries(*old(map)),
            listed_or_none(listed),
            kind,
            listed_or_none(listed).len() as int,
        ),
{
    match listed {
        Some(listed) => {
            let ghost whole = listed@;
            let ghost start = map_entries(*map);
            for entry in it: listed
                invariant
                    it.seq() == whole,
                    map_entries(*map) == collected(start, whole, kind, it.index()),
            {
                projections_insert(map, entry.0, TransitiveSetProjectionSpec { kind, projection: entry.1 });
            }
        },
        None => {},
    }
}

/// The definition that a declaration of a transitive set makes.
///
/// The projections are merged, those for arguments before those for JSON.
/// The declaration is refused with `ProjectionSignatureError`, naming the
/// first such projection, if a projection says how many parameters it
/// takes and that is not one; otherwise with `TransitiveSetOnlyInBzl` if it
/// does not stand in a `bzl` file. `load_file` is the path of that file.
/// Reductions that are not given are none.
pub fn transitive_set(
    args_projections: Option<Vec<(String, CallableValue)>>,
    json_projections: Option<Vec<(String, CallableValue)>>,
    reductions: Option<Vec<(String, CallableValue)>>,
    load_file: Option<String>,
) -> (made: Result<TransitiveSetDefinition, TransitiveSetRefusal>)
    ensures
        match made {
            Ok(definition) => {
                &&& forall|i: int|
                    0 <= i < merged(args_projections, json_projections).len() ==> !bad_signature(
                        #[trigger] merged(args_projections, json_projections)[i].1,
                    )
                &&& load_file == Some(definition.import_path)
                &&& map_entries(definition.operations.projections) == merged(
                    args_projections,
                    json_projections,
                )
                &&& definition.operations.reductions@ == listed_or_none(reductions)
            },
            Err(TransitiveSetRefusal::Signature(TransitiveSetError::ProjectionSignatureError { name })) => {
                exists|at: int|
                    first_bad(merged(args_projections, json_projections), at) && name@ == merged(
                        args_projections,
                        json_projections,
                    )[at].0
            },
            Err(TransitiveSetRefusal::Natives(error)) => {
                &&& forall|i: int|
                    0 <= i < merged(args_projections, json_projections).len() ==> !bad_signature(
                        #[trigger] merged(args_projections, json_projections)[i].1,
                    )
                &&& load_file is None
                &&& error is TransitiveSetOnlyInBzl
            },
        },
{
    let mut projections = projections_new();
    assert(map_entries(projections) =~= Seq::empty());
    collect_projections(&mut projections, args_projections, TransitiveSetProjectionKind::Args);
    collect_projections(&mut projections, json_projections, TransitiveSetProjectionKind::Json);
    let ghost entries = map_entries(projections);
    assert(entries == merged(args_projections, json_projections));
    let n = projections_len(&projections);
    let mut i: usize = 0;
    while i < n
        invariant
            0 <= i <= n,
            n == entries.len(),
            entries == map_entries(projections),
            entries == merged(args_projections, json_projections),
            forall|j: int| 0 <= j < i ==> !bad_signature(#[trigger] entries[j].1),
        decreases n - i,
    {
        match projections_get_index(&projections, i) {
            Some(entry) => {
                match entry.1.projection.parameters {
                    Some(v) => {
                        if v != 1 {
                            assert(first_bad(entries, i as int));
                            return Err(
                                TransitiveSetRefusal::Signature(
                                    TransitiveSetError::ProjectionSignatureError { name: entry.0 },
                                ),
                            );
                        }
                    },
                    None => {},
                }
            },
            None => {},
        }
        i = i + 1;
    }
    match load_file {
        Some(import_path) => Ok(
            TransitiveSetDefinition {
                import_path,
                operations: TransitiveSetOperations {
                    projections,
                    reductions: match reductions {
                        Some(reductions) => reductions,
                        None => Vec::new(),
                    },
                },
            },
        ),
        None => Err(TransitiveSetRefusal::Natives(NativesError::TransitiveSetOnlyInBzl)),
    }
}

} // verus!
