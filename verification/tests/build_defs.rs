use dice::build_defs::provider;
use dice::build_defs::transitive_set;
use dice::build_defs::CallableValue;
use dice::build_defs::FieldsSpec;
use dice::build_defs::NativesError;
use dice::build_defs::TransitiveSetError;
use dice::build_defs::TransitiveSetProjectionKind;
use dice::build_defs::TransitiveSetRefusal;

fn strings(list: &[&str]) -> Vec<String> {
    list.iter().map(|s| s.to_string()).collect()
}

fn callable(handle: u64, parameters: Option<usize>) -> CallableValue {
    CallableValue { handle, parameters }
}

fn listed(list: &[(&str, u64, Option<usize>)]) -> Option<Vec<(String, CallableValue)>> {
    Some(list.iter().map(|(n, h, p)| (n.to_string(), callable(*h, *p))).collect())
}

#[test]
fn test_provider() {
    let some_info = provider(FieldsSpec::Names(strings(&["x", "y"]))).unwrap();
    let names: Vec<&String> = some_info.names.iter().collect();
    assert_eq!(names, vec!["x", "y"]);
    assert_eq!(some_info.docs, vec![None, None]);

    let some_other_info = provider(FieldsSpec::Documented(vec![
        ("x".to_string(), "docs for x".to_string()),
        ("y".to_string(), "docs for y".to_string()),
    ]))
    .unwrap();
    let names: Vec<&String> = some_other_info.names.iter().collect();
    assert_eq!(names, vec!["x", "y"]);
    assert_eq!(
        some_other_info.docs,
        vec![Some("docs for x".to_string()), Some("docs for y".to_string())]
    );
}

#[test]
fn a_field_name_that_occurs_twice_is_refused() {
    match provider(FieldsSpec::Names(strings(&["x", "y", "x"]))) {
        Err(NativesError::NonUniqueFields(given)) => assert_eq!(given, strings(&["x", "y", "x"])),
        _ => panic!("the declaration was not refused"),
    }
    match provider(FieldsSpec::Names(strings(&["a", "a"]))) {
        Err(NativesError::NonUniqueFields(given)) => assert_eq!(given, strings(&["a", "a"])),
        _ => panic!("the declaration was not refused"),
    }
}

#[test]
fn a_provider_may_have_no_fields() {
    let empty = provider(FieldsSpec::Names(vec![])).unwrap();
    assert!(empty.names.is_empty());
    assert!(empty.docs.is_empty());
    let empty = provider(FieldsSpec::Documented(vec![])).unwrap();
    assert!(empty.names.is_empty());
}

#[test]
fn projections_are_merged_arguments_first() {
    let made = transitive_set(
        listed(&[("a", 1, Some(1)), ("b", 2, None)]),
        listed(&[("c", 3, Some(1)), ("a", 4, Some(1))]),
        listed(&[("r", 5, Some(2))]),
        Some("root//:defs.bzl".to_string()),
    );
    let made = match made {
        Ok(made) => made,
        Err(_) => panic!("the declaration was refused"),
    };
    assert_eq!(made.import_path, "root//:defs.bzl");
    let entries: Vec<(String, TransitiveSetProjectionKind, u64)> = made
        .operations
        .projections
        .iter()
        .map(|(name, spec)| (name.clone(), spec.kind, spec.projection.handle))
        .collect();
    assert_eq!(
        entries,
        vec![
            ("a".to_string(), TransitiveSetProjectionKind::Json, 4),
            ("b".to_string(), TransitiveSetProjectionKind::Args, 2),
            ("c".to_string(), TransitiveSetProjectionKind::Json, 3),
        ]
    );
    assert_eq!(made.operations.reductions, vec![("r".to_string(), callable(5, Some(2)))]);
}

#[test]
fn a_projection_that_does_not_take_one_parameter_is_refused() {
    let made = transitive_set(
        listed(&[("a", 1, Some(1)), ("b", 2, Some(2))]),
        listed(&[("c", 3, Some(0))]),
        None,
        None,
    );
    match made {
        Err(TransitiveSetRefusal::Signature(TransitiveSetError::ProjectionSignatureError {
            name,
        })) => assert_eq!(name, "b"),
        _ => panic!("the declaration was not refused for its signature"),
    }
}

#[test]
fn a_projection_that_is_replaced_is_not_checked() {
    let made = transitive_set(
        listed(&[("a", 1, Some(3))]),
        listed(&[("a", 2, Some(1))]),
        None,
        Some("root//:defs.bzl".to_string()),
    );
    assert!(made.is_ok());
}

#[test]
fn a_transitive_set_outside_a_bzl_file_is_refused() {
    match transitive_set(None, None, None, None) {
        Err(TransitiveSetRefusal::Natives(NativesError::TransitiveSetOnlyInBzl)) => {}
        _ => panic!("the declaration was not refused for its place"),
    }
}

#[test]
fn a_transitive_set_without_operations_has_none() {
    let made = transitive_set(None, None, None, Some("root//:defs.bzl".to_string()));
    let made = match made {
        Ok(made) => made,
        Err(_) => panic!("the declaration was refused"),
    };
    assert!(made.operations.projections.is_empty());
    assert!(made.operations.reductions.is_empty());
}
