use dice::install_info::install_info_creator;
use dice::install_info::validate_install_info;
use dice::install_info::Artifact;
use dice::install_info::FileValue;
use dice::install_info::InstallInfoError;
use dice::install_info::InstallInfoGen;
use dice::install_info::InstallerValue;

fn bound(name: &str) -> FileValue {
    FileValue::Artifact { bound: Some(name.to_string()), associated: 0 }
}

fn files(list: Vec<(&str, FileValue)>) -> Vec<(String, FileValue)> {
    list.into_iter().map(|(k, v)| (k.to_string(), v)).collect()
}

fn label() -> InstallerValue {
    InstallerValue::Label("root//:installer".to_string())
}

#[test]
fn bound_artifacts_without_companions_can_be_installed() {
    let info = install_info_creator(
        "root//:installer".to_string(),
        files(vec![("a", bound("out/a")), ("b", bound("out/b"))]),
    )
    .unwrap();
    assert_eq!(info.get_installer(), Ok("root//:installer".to_string()));
    let got = info.get_files().unwrap();
    let entries: Vec<(&String, &Artifact)> = got.iter().collect();
    assert_eq!(
        entries,
        vec![
            (&"a".to_string(), &Artifact("out/a".to_string())),
            (&"b".to_string(), &Artifact("out/b".to_string())),
        ]
    );
    assert_eq!(validate_install_info(&info), Ok(()));
}

#[test]
fn a_file_that_is_no_artifact_is_the_wrong_type_of_parameter() {
    let made = install_info_creator(
        "root//:installer".to_string(),
        files(vec![
            ("a", FileValue::Artifact { bound: None, associated: 0 }),
            ("b", FileValue::Other),
        ]),
    );
    assert_eq!(made.err(), Some(InstallInfoError::IncorrectParameterType));
}

#[test]
fn the_first_file_that_cannot_be_installed_decides() {
    let made = install_info_creator(
        "root//:installer".to_string(),
        files(vec![
            ("a", bound("out/a")),
            ("b", FileValue::Artifact { bound: Some("out/b".to_string()), associated: 2 }),
            ("c", FileValue::Artifact { bound: None, associated: 0 }),
        ]),
    );
    assert_eq!(
        made.err(),
        Some(InstallInfoError::AssociatedArtifacts {
            key: "b".to_string(),
            artifact: "out/b".to_string()
        })
    );
    let info = InstallInfoGen::new(
        label(),
        files(vec![("c", FileValue::Artifact { bound: None, associated: 3 }), ("d", FileValue::Other)]),
    );
    assert_eq!(validate_install_info(&info), Err(InstallInfoError::NotBound("c".to_string())));
    let info = InstallInfoGen::new(label(), files(vec![("d", FileValue::Other)]));
    assert_eq!(validate_install_info(&info), Err(InstallInfoError::NotAnArtifact));
}

#[test]
fn an_installer_that_is_no_label_is_refused() {
    let info = InstallInfoGen::new(
        InstallerValue::Other { repr: "1".to_string(), kind: "int".to_string() },
        vec![],
    );
    assert_eq!(
        info.get_installer(),
        Err(InstallInfoError::ExpectedLabel("1".to_string(), "int".to_string()))
    );
    assert!(info.get_files().unwrap().is_empty());
}

#[test]
fn files_come_with_their_bound_artifacts_or_not_at_all() {
    let info = InstallInfoGen::new(
        label(),
        files(vec![
            ("a", FileValue::Artifact { bound: Some("out/a".to_string()), associated: 4 }),
            ("b", FileValue::Artifact { bound: None, associated: 0 }),
        ]),
    );
    assert_eq!(info.get_files().err(), Some(InstallInfoError::NotBound("b".to_string())));
    let info = InstallInfoGen::new(label(), files(vec![("a", FileValue::Other)]));
    assert_eq!(info.get_files().err(), Some(InstallInfoError::NotAnArtifact));
    let info = InstallInfoGen::new(
        label(),
        files(vec![("a", bound("one")), ("b", bound("two")), ("a", bound("three"))]),
    );
    let got = info.get_files().unwrap();
    let entries: Vec<(&String, &Artifact)> = got.iter().collect();
    assert_eq!(
        entries,
        vec![
            (&"a".to_string(), &Artifact("three".to_string())),
            (&"b".to_string(), &Artifact("two".to_string())),
        ]
    );
}
