//! The parts of a version's metadata that decisions are made on: the
//! latest releases, the kinds of release, and a library with its downloads.

use crate::rules::{all_allow, rules_allow, OsName, Rule};
use vstd::prelude::*;
use vstd::string::*;

verus! {

/// The newest release and the newest snapshot, by id.
#[derive(Debug, Clone, PartialEq, Eq)]
pub struct LatestReleases {
    pub release: String,
    pub snapshot: String,
}

/// The kind of a release.
#[derive(Debug, Clone, Copy, PartialEq, Eq, PartialOrd, Ord)]
pub enum ReleaseKind {
    Snapshot,
    Release,
    OldBeta,
    OldAlpha,
}

/// The paths that are left out when a library is unpacked.
#[derive(Debug, Clone, PartialEq, Eq)]
pub struct LibraryExtractInstructions {
    pub exclude: Vec<String>,
}

impl Default for LibraryExtractInstructions {
    fn default() -> (r: Self)
        ensures
            r.exclude@.len() == 0,
    {
        LibraryExtractInstructions { exclude: Vec::new() }
    }
}

impl LibraryExtractInstructions {
    /// Whether nothing is left out.
    pub fn is_empty(&self) -> (r: bool)
        ensures
            r == (self.exclude@.len() == 0),
    {
        self.exclude.len() == 0
    }
}

/// One file of a library: where it is kept, its checksum, its size and the
/// address it is fetched from.
#[derive(Debug, Clone, PartialEq, Eq)]
pub struct LibraryDownload {
    pub path: String,
    pub sha1: String,
    pub size: u64,
    pub url: String,
}

/// The files of a library: the artifact itself and the classified ones,
/// each under its classifier. A well-formed library holds no classifier
/// twice; where one stands twice, its first file counts.
#[derive(Debug, Clone, PartialEq, Eq)]
pub struct LibraryDownloads {
    pub artifact: LibraryDownload,
    pub classifiers: Vec<(String, LibraryDownload)>,
}

/// A library: its files, its rules, and for each operating system that has
/// native code the classifier of that file. A well-formed library holds no
/// operating system twice; where one stands twice, its first classifier
/// counts.
#[derive(Debug, Clone, PartialEq, Eq)]
pub struct Library {
    pub downloads: LibraryDownloads,
    pub extract: LibraryExtractInstructions,
    pub name: String,
    pub natives: Vec<(OsName, String)>,
    pub rules: Vec<Rule>,
}

/// The classifier that `natives` holds for `os`: that of the first pair
/// with this operating system.
pub open spec fn classifier_of(natives: Seq<(OsName, String)>, os: OsName) -> Option<Seq<char>>
    decreases natives.len(),
{
    if natives.len() == 0 {
        None
    } else if natives[0].0 == os {
        Some(natives[0].1@)
    } else {
        classifier_of(natives.drop_first(), os)
    }
}

/// The file that `classifiers` holds under `key`: that of the first pair
/// with this classifier.
pub open spec fn classified(classifiers: Seq<(String, LibraryDownload)>, key: Seq<char>) -> Option<
    LibraryDownload,
>
    decreases classifiers.len(),
{
    if classifiers.len() == 0 {
        None
    } else if classifiers[0].0@ == key {
        Some(classifiers[0].1)
    } else {
        classified(classifiers.drop_first(), key)
    }
}

/// Whether no operating system stands twice in `natives`.
pub open spec fn distinct_systems(natives: Seq<(OsName, String)>) -> bool {
    forall|i: int, j: int|
        0 <= i < j < natives.len() ==> (#[trigger] natives[i]).0 != (#[trigger] natives[j]).0
}

/// Where no operating system stands twice, the classifier of an operating
/// system is that of the one pair that names it, wherever the pair stands.
pub proof fn lemma_classifier_of_pair(natives: Seq<(OsName, String)>, i: int)
    requires
        distinct_systems(natives),
        0 <= i < natives.len(),
    ensures
        classifier_of(natives, natives[i].0) == Some(natives[i].1@),
    decreases natives.len(),
{
    if i > 0 {
        let rest = natives.drop_first();
        assert(natives[0].0 != natives[i].0);
        assert(rest[i - 1] == natives[i]);
        assert forall|a: int, b: int| 0 <= a < b < rest.len() implies (#[trigger] rest[a]).0 != (
        #[trigger] rest[b]).0 by {
            assert(rest[a] == natives[a + 1]);
            assert(rest[b] == natives[b + 1]);
        }
        lemma_classifier_of_pair(rest, i - 1);
    }
}

/// Whether no classifier stands twice in `classifiers`.
pub open spec fn distinct_classifiers(classifiers: Seq<(String, LibraryDownload)>) -> bool {
    forall|i: int, j: int|
        0 <= i < j < classifiers.len() ==> (#[trigger] classifiers[i]).0@ != (
        #[trigger] classifiers[j]).0@
}

/// Where no classifier stands twice, the file under a classifier is that of
/// the one pair that names it, wherever the pair stands.
pub proof fn lemma_classified_pair(classifiers: Seq<(String, LibraryDownload)>, i: int)
    requires
        distinct_classifiers(classifiers),
        0 <= i < classifiers.len(),
    ensures
        classified(classifiers, classifiers[i].0@) == Some(classifiers[i].1),
    decreases classifiers.len(),
{
    if i > 0 {
        let rest = classifiers.drop_first();
        assert(classifiers[0].0@ != classifiers[i].0@);
        assert(rest[i - 1] == classifiers[i]);
        assert forall|a: int, b: int| 0 <= a < b < rest.len() implies (#[trigger] rest[a]).0@ != (
        #[trigger] rest[b]).0@ by {
            assert(rest[a] == classifiers[a + 1]);
            assert(rest[b] == classifiers[b + 1]);
        }
        lemma_classified_pair(rest, i - 1);
    }
}

impl Library {
    /// A library is well formed where neither an operating system nor a
    /// classifier stands twice in it.
    pub open spec fn well_formed(self) -> bool {
        distinct_systems(self.natives@) && distinct_classifiers(self.downloads.classifiers@)
    }

    /// In a well-formed library the native file does not depend on the
    /// order of the pairs: where one pair names the operating system and
    /// another the classifier of the first, the native file is the file of
    /// the second.
    pub proof fn lemma_native_file(self, current: OsName, i: int, j: int)
        requires
            self.well_formed(),
            0 <= i < self.natives@.len(),
            0 <= j < self.downloads.classifiers@.len(),
            self.natives@[i].0 == current,
            self.downloads.classifiers@[j].0@ == self.natives@[i].1@,
        ensures
            self.native_file(current) == Some(self.downloads.classifiers@[j].1),
    {
        lemma_classifier_of_pair(self.natives@, i);
        lemma_classified_pair(self.downloads.classifiers@, j);
    }

    /// The native file of the library on `current`: the one classified by
    /// the classifier that the library holds for this operating system.
    pub open spec fn native_file(self, current: OsName) -> Option<LibraryDownload> {
        match classifier_of(self.natives@, current) {
            Some(key) => classified(self.downloads.classifiers@, key),
            None => None,
        }
    }

    /// The files to fetch on `current`: none where a rule keeps the library
    /// out, else the artifact and, where there is one, the native file.
    pub open spec fn files(self, current: OsName) -> Option<
        (LibraryDownload, Option<LibraryDownload>),
    > {
        if all_allow(self.rules@, current) {
            Some((self.downloads.artifact, self.native_file(current)))
        } else {
            None
        }
    }

    /// The artifact of the library.
    pub fn artifact(&self) -> (r: &LibraryDownload)
        ensures
            *r == self.downloads.artifact,
    {
        &self.downloads.artifact
    }

    /// The classifier of the library's native file on the operating system
    /// `current`.
    pub fn classifier(&self, current: OsName) -> (r: Option<&String>)
        ensures
            r is Some == classifier_of(self.natives@, current) is Some,
            r matches Some(key) ==> Some(key@) == classifier_of(self.natives@, current),
    {
        let mut i: usize = 0;
        assert(self.natives@.skip(0) =~= self.natives@);
        while i < self.natives.len()
            invariant
                i <= self.natives.len(),
                classifier_of(self.natives@, current) == classifier_of(
                    self.natives@.skip(i as int),
                    current,
                ),
            decreases self.natives.len() - i,
        {
            assert(self.natives@.skip(i as int).drop_first() =~= self.natives@.skip(i + 1));
            if self.natives[i].0.is_current(current) {
                return Some(&self.natives[i].1);
            }
            i += 1;
        }
        None
    }

    /// The native file of the library on the operating system `current`.
    pub fn native(&self, current: OsName) -> (r: Option<&LibraryDownload>)
        ensures
            r is Some == self.native_file(current) is Some,
            r matches Some(d) ==> Some(*d) == self.native_file(current),
    {
        match self.classifier(current) {
            Some(key) => find_classified(&self.downloads.classifiers, key),
            None => None,
        }
    }

    /// The files to fetch on the operating system `current`.
    pub fn download_plan(&self, current: OsName) -> (r: Option<
        (&LibraryDownload, Option<&LibraryDownload>),
    >)
        ensures
            r is Some == self.files(current) is Some,
            r matches Some(p) ==> self.files(current) == Some(
                (
                    *p.0,
                    match p.1 {
                        Some(d) => Some(*d),
                        None => None,
                    },
                ),
            ),
    {
        if !rules_allow(&self.rules, current) {
            return None;
        }
        Some((self.artifact(), self.native(current)))
    }
}

/// The file that `classifiers` holds under `key`.
pub fn find_classified<'a>(classifiers: &'a Vec<(String, LibraryDownload)>, key: &String) -> (r:
    Option<&'a LibraryDownload>)
    ensures
        r is Some == classified(classifiers@, key@) is Some,
        r matches Some(d) ==> Some(*d) == classified(classifiers@, key@),
{
    let mut i: usize = 0;
    assert(classifiers@.skip(0) =~= classifiers@);
    while i < classifiers.len()
        invariant
            i <= classifiers.len(),
            classified(classifiers@, key@) == classified(classifiers@.skip(i as int), key@),
        decreases classifiers.len() - i,
    {
        assert(classifiers@.skip(i as int).drop_first() =~= classifiers@.skip(i + 1));
        if classifiers[i].0 == *key {
            return Some(&classifiers[i].1);
        }
        i += 1;
    }
    None
}

} // verus!
