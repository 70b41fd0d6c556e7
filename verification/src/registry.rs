//! The crates.io registry index: a lookup from package name to its latest
//! published version, read through the crates-index crate. The index is
//! on-disk state, so what a lookup returns is not a function of its
//! arguments; the contracts state what holds of every outcome, and the
//! reconciliation engine takes the outcome as a value.

use rayon::iter::ParallelIterator;
use vstd::prelude::*;

use crate::package::Package;
use crate::parse::{parse_version, parsed_version_view, semver_parse};
use crate::version::Version;

verus! {

#[verifier::external_type_specification]
#[verifier::external_body]
pub struct ExIndex(crates_index::Index);

#[verifier::external_type_specification]
#[verifier::external_body]
pub struct ExCrate(crates_index::Crate);

#[verifier::external_type_specification]
#[verifier::external_body]
pub struct ExRegex(regex::Regex);

/// Why a registry operation yielded no version.
#[derive(Clone, Copy, Debug, PartialEq, Eq, Structural)]
pub enum RegistryError {
    /// The registry has no record of the package.
    NotFound,
    /// The registry's version string is not a valid semantic version.
    BadVersion,
    /// The on-disk index could not be brought up to date.
    UpdateFailed,
    /// The search pattern is not a valid regular expression.
    BadPattern,
}

/// Whether a pattern compiles as a regular expression: a function of the
/// pattern text alone.
pub uninterp spec fn regex_ok(pattern: Seq<char>) -> bool;

/// Whether a regular expression matches somewhere in a text: a function
/// of the pattern and the text alone.
pub uninterp spec fn regex_matches(pattern: Seq<char>, text: Seq<char>) -> bool;

/// Relies on regex::Regex::new: compiles the pattern, failing exactly on
/// an invalid pattern, which depends on the pattern text alone.
#[verifier::external_body]
fn regex_new(pattern: &str) -> (r: Option<regex::Regex>)
    ensures
        r is Some <==> regex_ok(pattern@),
{
    regex::Regex::new(pattern).ok()
}

/// A compiled search pattern, coupled to the text it was compiled from;
/// `compile` is the only way to build one, so the program inside always
/// belongs to the text.
pub struct CompiledPattern {
    re: regex::Regex,
    pattern: String,
}

impl View for CompiledPattern {
    type V = Seq<char>;

    closed spec fn view(&self) -> Seq<char> {
        self.pattern@
    }
}

impl CompiledPattern {
    /// Compile a pattern; nothing exactly when it is invalid.
    pub fn compile(pattern: &str) -> (r: Option<CompiledPattern>)
        ensures
            r is Some <==> regex_ok(pattern@),
            r matches Some(p) ==> p@ == pattern@,
    {
        match regex_new(pattern) {
            Some(re) => Some(CompiledPattern { re, pattern: pattern.to_owned() }),
            None => None,
        }
    }

    /// Whether the pattern matches somewhere in the text.
    pub fn matches(&self, text: &str) -> (r: bool)
        ensures
            r == regex_matches(self@, text@),
    {
        pattern_matches(self, text)
    }
}

/// Relies on regex::Regex::is_match: whether the pattern matches
/// somewhere in the text; the compiled program belongs to the carried
/// pattern text by construction.
#[verifier::external_body]
fn pattern_matches(p: &CompiledPattern, text: &str) -> (r: bool)
    ensures
        r == regex_matches(p@, text@),
{
    p.re.is_match(text)
}

/// Relies on crates_index::Index::new_cargo_default: opens the registry
/// index at Cargo's own disk location; absent when that fails.
#[verifier::external_body]
fn open_default_index() -> (r: Option<crates_index::Index>)
{
    crates_index::Index::new_cargo_default().ok()
}

/// Relies on crates_index::Index::crate_: looks a crate's record up in
/// the on-disk index; what it holds depends on the state of that index.
#[verifier::external_body]
fn index_crate(index: &crates_index::Index, name: &str) -> (r: Option<crates_index::Crate>)
{
    index.crate_(name)
}

/// Relies on crates_index::Index::update: fetches the newest index from
/// the network.
#[verifier::external_body]
fn index_update(index: &mut crates_index::Index) -> (r: bool)
{
    index.update().is_ok()
}

/// Relies on crates_index::Crate::highest_normal_version (the highest
/// version that is neither yanked nor a pre-release, if any), falling
/// back to Crate::highest_version (the highest version of any kind, which
/// an indexed crate always has), and on Version::version (the record's
/// version string): the version string of the record the registry deems
/// latest.
#[verifier::external_body]
fn latest_version_text(c: &crates_index::Crate) -> (r: String)
{
    match c.highest_normal_version() {
        Some(v) => v.version().to_string(),
        None => c.highest_version().version().to_string(),
    }
}

/// Relies on crates_index::Index::crates_parallel and rayon's collect:
/// every crate record of the on-disk index that can still be read; a
/// record that fails to load — the stored head commit may have been
/// garbage-collected meanwhile — is dropped rather than read, so the
/// call returns on any state of the index. What comes back depends on
/// that state.
#[verifier::external_body]
fn index_all_crates(index: &crates_index::Index) -> (r: Vec<crates_index::Crate>)
{
    index
        .crates_parallel()
        .filter_map(|item| match item {
            Ok(c) => Some(c),
            Err(_) => None,
        })
        .collect()
}

/// Relies on crates_index::Crate::name: the crate record's name.
#[verifier::external_body]
fn crate_name_text(c: &crates_index::Crate) -> (r: String)
{
    c.name().to_string()
}

/// Relies on crates_index::Crate::highest_normal_version and
/// crates_index::Version::version: the version string of the highest
/// version that is neither yanked nor a pre-release, if any.
#[verifier::external_body]
fn normal_version_text(c: &crates_index::Crate) -> (r: Option<String>)
{
    match c.highest_normal_version() {
        Some(v) => Some(v.version().to_string()),
        None => None,
    }
}

/// The crates.io registry, read from Cargo's own on-disk index.
pub struct CratesRegistry {
    index: crates_index::Index,
}

impl CratesRegistry {
    /// Open the registry at Cargo's default index location; nothing when
    /// the index cannot be opened.
    pub fn new() -> (r: Option<CratesRegistry>) {
        match open_default_index() {
            Some(index) => Some(CratesRegistry { index }),
            None => None,
        }
    }

    /// Bring the on-disk index up to date from the network.
    pub fn _update_index(&mut self) -> (r: Result<(), RegistryError>)
        ensures
            r matches Err(e) ==> e is UpdateFailed,
    {
        if index_update(&mut self.index) {
            Ok(())
        } else {
            Err(RegistryError::UpdateFailed)
        }
    }

    /// The latest version of a package: its highest normal version when
    /// one exists, else its highest version of any kind, so that a result
    /// is returned whenever the registry knows the package at all. The
    /// outcome depends on the on-disk index; whatever record it holds,
    /// a returned version is the strict parse of that record's version
    /// string.
    pub fn get_latest_version(&self, crate_name: &str) -> (r: Result<Version, RegistryError>)
        ensures
            r matches Ok(v) ==> exists|s: Seq<char>|
                #[trigger] semver_parse(s) matches Some(t) && v@ == parsed_version_view(t),
            r matches Err(e) ==> e is NotFound || e is BadVersion,
    {
        let found = match index_crate(&self.index, crate_name) {
            Some(c) => c,
            None => {
                return Err(RegistryError::NotFound);
            },
        };
        let version_text: String = latest_version_text(&found);
        match parse_version(version_text.as_str()) {
            Some(v) => {
                proof {
                    let s = version_text@;
                    assert(semver_parse(s) matches Some(t) && v@ == parsed_version_view(t));
                }
                Ok(v)
            },
            None => Err(RegistryError::BadVersion),
        }
    }

    /// Every returned package's name matches the pattern, and a search
    /// result carries no executables.
    pub open spec fn search_results_ok(pattern: Seq<char>, v: Seq<Package>) -> bool {
        forall|i: int|
            0 <= i < v.len() ==> regex_matches(pattern, #[trigger] v[i]@.name)
                && v[i]@.binaries.len() == 0
    }

    /// Search the registry: every indexed crate whose name matches the
    /// regular expression and that has a normal version becomes a bare
    /// package carrying that version and no executables. Fails exactly
    /// on an invalid pattern; which crates come back depends on the
    /// on-disk index, but every returned name matches the pattern.
    pub fn search(&self, pattern: &str) -> (r: Result<Vec<Package>, RegistryError>)
        ensures
            r is Err <==> !regex_ok(pattern@),
            r matches Err(e) ==> e is BadPattern,
            r matches Ok(v) ==> Self::search_results_ok(pattern@, v@),
    {
        let compiled = match CompiledPattern::compile(pattern) {
            Some(c) => c,
            None => {
                return Err(RegistryError::BadPattern);
            },
        };
        let crates = index_all_crates(&self.index);
        let n = crates.len();
        let mut out: Vec<Package> = Vec::new();
        let mut i: usize = 0;
        while i < n
            invariant
                0 <= i <= n,
                n == crates@.len(),
                compiled@ == pattern@,
                forall|k: int|
                    0 <= k < out@.len() ==> regex_matches(pattern@, #[trigger] out@[k]@.name)
                        && out@[k]@.binaries.len() == 0,
            decreases n - i,
        {
            let name = crate_name_text(&crates[i]);
            if pattern_matches(&compiled, name.as_str()) {
                match normal_version_text(&crates[i]) {
                    Some(version_text) => {
                        match parse_version(version_text.as_str()) {
                            Some(version) => {
                                let ghost prev = out@;
                                let ghost matched_name = name@;
                                let p = Package::new(name, version, Vec::new());
                                proof {
                                    assert(p@.name == matched_name);
                                    assert(p@.binaries.len() == 0) by {
                                        assert(crate::package::execs_view(
                                            Seq::<crate::package::PackageExecutable>::empty(),
                                        ).len() == 0);
                                    }
                                }
                                out.push(p);
                                proof {
                                    assert forall|k: int| 0 <= k < out@.len() implies regex_matches(
                                        pattern@,
                                        #[trigger] out@[k]@.name,
                                    ) && out@[k]@.binaries.len() == 0 by {
                                        if k < prev.len() {
                                            assert(out@[k] == prev[k]);
                                        } else {
                                            assert(out@[k] == p);
                                            assert(regex_matches(pattern@, matched_name));
                                        }
                                    }
                                }
                            },
                            None => {},
                        }
                    },
                    None => {},
                }
            }
            i = i + 1;
        }
        proof {
            assert(Self::search_results_ok(pattern@, out@)) by {
                assert forall|k: int| 0 <= k < out@.len() implies regex_matches(
                    pattern@,
                    #[trigger] out@[k]@.name,
                ) && out@[k]@.binaries.len() == 0 by {}
            }
        }
        Ok(out)
    }

    /// The raw index record of a package, for presentation.
    pub fn get_crate(&self, crate_name: &str) -> (r: Result<crates_index::Crate, RegistryError>)
        ensures
            r matches Err(e) ==> e is NotFound,
    {
        match index_crate(&self.index, crate_name) {
            Some(c) => Ok(c),
            None => Err(RegistryError::NotFound),
        }
    }
}

} // verus!
