//! The provider that says a target can be installed: what it holds, and
//! what a rule has to give for it.

use starlark_map::small_map::SmallMap;
use vstd::prelude::*;

verus! {

/// What went wrong with an `InstallInfo`.
#[derive(Debug, PartialEq, Eq)]
pub enum InstallInfoError {
    /// The installer is no label; it carries the value written out and the
    /// name of its type.
    ExpectedLabel(String, String),
    /// A file was given that is no artifact.
    IncorrectParameterType,
    /// A file is no artifact.
    NotAnArtifact,
    /// The artifact of the file under this key is not bound to an action or
    /// a source.
    NotBound(String),
    /// The file under this key, this artifact, has associated artifacts.
    AssociatedArtifacts { key: String, artifact: String },
}

/// What the rules read of the value given as installer.
#[derive(Debug, PartialEq, Eq)]
pub enum InstallerValue {
    /// A label, written out.
    Label(String),
    /// Anything else, written out, with the name of its type.
    Other { repr: String, kind: String },
}

/// What the rules read of a value given as a file to install.
#[derive(Debug, PartialEq, Eq)]
pub enum FileValue {
    /// An artifact: what it is bound to, if it is bound, and how many
    /// artifacts are associated with it.
    Artifact { bound: Option<String>, associated: usize },
    /// Anything else.
    Other,
}

/// A bound artifact, written out.
#[derive(Debug, PartialEq, Eq)]
pub struct Artifact(pub String);

/// The provider of an installable target: the label of the installer, and
/// the files to install by name.
#[derive(Debug)]
pub struct InstallInfoGen {
    installer: InstallerValue,
    files: Vec<(String, FileValue)>,
}

/// The provider as it stands once the values it holds are frozen.
pub type FrozenInstallInfo = InstallInfoGen;

/// The files to install, by name.
pub type InstalledFiles = SmallMap<String, Artifact>;

/// The entries of a map of files, in the order in which their names were
/// first inserted: the name and the artifact, both written out.
pub uninterp spec fn file_entries(map: InstalledFiles) -> Seq<(Seq<char>, Seq<char>)>;

/// Whether `entries` holds an entry under `name`.
pub open spec fn has_file(entries: Seq<(Seq<char>, Seq<char>)>, name: Seq<char>) -> bool {
    exists|i: int| 0 <= i < entries.len() && (#[trigger] entries[i]).0 == name
}

/// The entries after `artifact` was inserted under `name`: a name that is
/// held keeps its place and gets the new artifact, a new name comes last.
pub open spec fn put_file(
    entries: Seq<(Seq<char>, Seq<char>)>,
    name: Seq<char>,
    artifact: Seq<char>,
) -> Seq<(Seq<char>, Seq<char>)> {
    if has_file(entries, name) {
        entries.update(
            choose|i: int| 0 <= i < entries.len() && (#[trigger] entries[i]).0 == name,
            (name, artifact),
        )
    } else {
        entries.push((name, artifact))
    }
}

/// `SmallMap::with_capacity`: a map that holds nothing.
#[verifier::external_body]
fn files_with_capacity(n: usize) -> (map: InstalledFiles)
    ensures
        file_entries(map).len() == 0,
{
    SmallMap::with_capacity(n)
}

/// `SmallMap::insert`: the value under a key that the map holds is
/// replaced where it stands; a new key is added at the end with its value.
#[verifier::external_body]
fn files_insert(map: &mut InstalledFiles, name: String, artifact: Artifact)
    ensures
        file_entries(*final(map)) == put_file(file_entries(*old(map)), name@, artifact.0@),
{
    map.insert(name, artifact);
}

/// Whether every file up to `upto` is an artifact.
pub open spec fn all_artifacts(files: Seq<(String, FileValue)>, upto: int) -> bool {
    forall|i: int| 0 <= i < upto ==> (#[trigger] files[i]).1 is Artifact
}

/// Whether a file can be installed: it is an artifact that is bound and has
/// no associated artifacts.
pub open spec fn installable(file: FileValue) -> bool {
    file matches FileValue::Artifact { bound, associated } && bound is Some && associated == 0
}

/// Whether `at` is the first file that cannot be installed.
pub open spec fn first_refused(files: Seq<(String, FileValue)>, at: int) -> bool {
    &&& 0 <= at < files.len()
    &&& !installable(files[at].1)
    &&& forall|i: int| 0 <= i < at ==> installable(#[trigger] files[i].1)
}

/// Whether `error` says why `file`, under `key`, cannot be installed.
pub open spec fn refuses(error: InstallInfoError, key: String, file: FileValue) -> bool {
    match file {
        FileValue::Other => error == InstallInfoError::NotAnArtifact,
        FileValue::Artifact { bound: None, .. } => error matches InstallInfoError::NotBound(name)
            && name@ == key@,
        FileValue::Artifact { bound: Some(bound), associated } => {
            &&& associated != 0
            &&& error matches InstallInfoError::AssociatedArtifacts { key: name, artifact }
            &&& name@ == key@
            &&& artifact@ == bound@
        },
    }
}

/// The files as a map holds them after the first `upto` were inserted, in
/// order; each is taken to be a bound artifact.
pub open spec fn gathered(files: Seq<(String, FileValue)>, upto: int) -> Seq<(Seq<char>, Seq<char>)>
    decreases upto,
{
    if upto <= 0 {
        Seq::empty()
    } else {
        put_file(
            gathered(files, upto - 1),
            files[upto - 1].0@,
            match files[upto - 1].1 {
                FileValue::Artifact { bound: Some(bound), .. } => bound@,
                _ => Seq::empty(),
            },
        )
    }
}

/// Whether a file is an artifact that is bound.
pub open spec fn has_bound(file: FileValue) -> bool {
    file matches FileValue::Artifact { bound: Some(_), .. }
}

/// Whether `error` says why `file`, under `key`, has no bound artifact to
/// hand out.
pub open spec fn withholds(error: InstallInfoError, key: String, file: FileValue) -> bool {
    match file {
        FileValue::Other => error == InstallInfoError::NotAnArtifact,
        FileValue::Artifact { .. } => error matches InstallInfoError::NotBound(name) && name@ == key@,
    }
}

/// Whether `at` is the first file that has no bound artifact to hand out.
pub open spec fn first_unbound(files: Seq<(String, FileValue)>, at: int) -> bool {
    &&& 0 <= at < files.len()
    &&& !has_bound(files[at].1)
    &&& forall|i: int| 0 <= i < at ==> has_bound(#[trigger] files[i].1)
}

/// Checks the files of a provider: each has to be an artifact that is bound
/// and has no associated artifacts. The first file that is not decides the
/// error.
pub fn validate_install_info(info: &InstallInfoGen) -> (checked: Result<(), InstallInfoError>)
    ensures
        match checked {
            Ok(_) => forall|i: int|
                0 <= i < info.spec_files()@.len() ==> installable(#[trigger] info.spec_files()@[i].1),
            Err(error) => exists|at: int|
                first_refused(info.spec_files()@, at) && refuses(
                    error,
                    info.spec_files()@[at].0,
                    info.spec_files()@[at].1,
                ),
        },
{
    let mut i: usize = 0;
    while i < info.files.len()
        invariant
            0 <= i <= info.files@.len(),
            forall|j: int| 0 <= j < i ==> installable(#[trigger] info.files@[j].1),
        decreases info.files@.len() - i,
    {
        match &info.files[i].1 {
            FileValue::Other => {
                assert(first_refused(info.spec_files()@, i as int));
                assert(refuses(
                    InstallInfoError::NotAnArtifact,
                    info.spec_files()@[i as int].0,
                    info.spec_files()@[i as int].1,
                ));
                return Err(InstallInfoError::NotAnArtifact);
            },
            FileValue::Artifact { bound, associated } => {
                match bound {
                    None => {
                        let error = InstallInfoError::NotBound(info.files[i].0.clone());
                        assert(first_refused(info.spec_files()@, i as int));
                        assert(refuses(error, info.spec_files()@[i as int].0, info.spec_files()@[i as int].1));
                        return Err(error);
                    },
                    Some(artifact) => {
                        if *associated != 0 {
                            let error = InstallInfoError::AssociatedArtifacts {
                                key: info.files[i].0.clone(),
                                artifact: artifact.clone(),
                            };
                            assert(first_refused(info.spec_files()@, i as int));
                            assert(refuses(error, info.spec_files()@[i as int].0, info.spec_files()@[i as int].1));
                            return Err(error);
                        }
                    },
                }
            },
        }
        i = i + 1;
    }
    Ok(())
}

/// Makes the provider from what a rule gives. A file that is no artifact is
/// refused with `IncorrectParameterType`; after that the files are checked
/// as `validate_install_info` checks them.
pub fn install_info_creator(installer: String, files: Vec<(String, FileValue)>) -> (made: Result<
    InstallInfoGen,
    InstallInfoError,
>)
    ensures
        match made {
            Ok(info) => {
                &&& info.spec_installer() == InstallerValue::Label(installer)
                &&& info.spec_files() == files
                &&& forall|i: int| 0 <= i < files@.len() ==> installable(#[trigger] files@[i].1)
            },
            Err(error) => if all_artifacts(files@, files@.len() as int) {
                exists|at: int|
                    first_refused(files@, at) && refuses(error, files@[at].0, files@[at].1)
            } else {
                error == InstallInfoError::IncorrectParameterType
            },
        },
{
    let mut i: usize = 0;
    while i < files.len()
        invariant
            0 <= i <= files@.len(),
            all_artifacts(files@, i as int),
        decreases files@.len() - i,
    {
        match &files[i].1 {
            FileValue::Artifact { .. } => {},
            FileValue::Other => {
                assert(!(files@[i as int].1 is Artifact));
                return Err(InstallInfoError::IncorrectParameterType);
            },
        }
        i = i + 1;
    }
    let info = InstallInfoGen { installer: InstallerValue::Label(installer), files };
    match validate_install_info(&info) {
        Ok(()) => Ok(info),
        Err(error) => Err(error),
    }
}

impl InstallInfoGen {
    pub closed spec fn spec_installer(&self) -> InstallerValue {
        self.installer
    }

    pub closed spec fn spec_files(&self) -> Vec<(String, FileValue)> {
        self.files
    }

    /// A provider with these values, unchecked, as it stands once frozen.
    pub fn new(installer: InstallerValue, files: Vec<(String, FileValue)>) -> (info: Self)
        ensures
            info.spec_installer() == installer,
            info.spec_files() == files,
    {
        InstallInfoGen { installer, files }
    }

    /// The label of the installer; `ExpectedLabel` where the value is no
    /// label.
    pub fn get_installer(&self) -> (label: Result<String, InstallInfoError>)
        ensures
            match self.spec_installer() {
                InstallerValue::Label(held) => label == Ok::<String, InstallInfoError>(held),
                InstallerValue::Other { repr, kind } => label == Err::<
                    String,
                    InstallInfoError,
                >(InstallInfoError::ExpectedLabel(repr, kind)),
            },
    {
        match &self.installer {
            InstallerValue::Label(held) => Ok(held.clone()),
            InstallerValue::Other { repr, kind } => Err(
                InstallInfoError::ExpectedLabel(repr.clone(), kind.clone()),
            ),
        }
    }

    /// The files to install, by name, each with its bound artifact. The
    /// first file that is no artifact, or whose artifact is not bound,
    /// decides the error.
    pub fn get_files(&self) -> (files: Result<InstalledFiles, InstallInfoError>)
        ensures
            match files {
                Ok(map) => {
                    &&& forall|i: int|
                        0 <= i < self.spec_files()@.len() ==> has_bound(
                            #[trigger] self.spec_files()@[i].1,
                        )
                    &&& file_entries(map) == gathered(
                        self.spec_files()@,
                        self.spec_files()@.len() as int,
                    )
                },
                Err(error) => exists|at: int|
                    first_unbound(self.spec_files()@, at) && withholds(
                        error,
                        self.spec_files()@[at].0,
                        self.spec_files()@[at].1,
                    ),
            },
    {
        let mut artifacts = files_with_capacity(self.files.len());
        assert(file_entries(artifacts) =~= Seq::empty());
        let mut i: usize = 0;
        while i < self.files.len()
            invariant
                0 <= i <= self.files@.len(),
                forall|j: int| 0 <= j < i ==> has_bound(#[trigger] self.files@[j].1),
                file_entries(artifacts) == gathered(self.files@, i as int),
            decreases self.files@.len() - i,
        {
            match &self.files[i].1 {
                FileValue::Other => {
                    assert(first_unbound(self.spec_files()@, i as int));
                    assert(withholds(
                        InstallInfoError::NotAnArtifact,
                        self.spec_files()@[i as int].0,
                        self.spec_files()@[i as int].1,
                    ));
                    return Err(InstallInfoError::NotAnArtifact);
                },
                FileValue::Artifact { bound, .. } => {
                    match bound {
                        None => {
                            let error = InstallInfoError::NotBound(self.files[i].0.clone());
                            assert(first_unbound(self.spec_files()@, i as int));
                            assert(withholds(error, self.spec_files()@[i as int].0, self.spec_files()@[i as int].1));
                            return Err(error);
                        },
                        Some(artifact) => {
                            files_insert(
                                &mut artifacts,
                                self.files[i].0.clone(),
                                Artifact(artifact.clone()),
                            );
                        },
                    }
                },
            }
            i = i + 1;
        }
        Ok(artifacts)
    }
}

} // verus!
