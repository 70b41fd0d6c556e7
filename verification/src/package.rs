//! The package data model: executables, discovery keys and packages, with
//! the total order that the sorted inventory relies on.

use vstd::prelude::*;

use crate::order::{
    chars_cmp, chars_cmp_fn, lemma_chars_cmp_sound, lemma_seq_cmp_equal, lemma_seq_cmp_flip,
    lemma_seq_cmp_trans, seq_cmp, str_cmp, Ordering,
};
use crate::version::{
    lemma_version_cmp_equal, lemma_version_cmp_flip, lemma_version_cmp_trans, version_cmp_spec,
    Version, VersionView,
};

verus! {

/// The on-disk invocable name associated with a package.
pub struct PackageExecutable {
    name: String,
}

impl View for PackageExecutable {
    type V = Seq<char>;

    closed spec fn view(&self) -> Seq<char> {
        self.name@
    }
}

impl PackageExecutable {
    /// Build an executable entry from its name.
    pub fn new(name: String) -> (r: Self)
        ensures
            r@ == name@,
    {
        PackageExecutable { name }
    }

    /// The executable's name.
    pub fn name(&self) -> (r: &str)
        ensures
            r@ == self@,
    {
        self.name.as_str()
    }
}

impl Clone for PackageExecutable {
    /// The copy holds the same name.
    fn clone(&self) -> (r: Self)
        ensures
            r@ == self@,
    {
        PackageExecutable { name: self.name.clone() }
    }
}

/// Identity of a discovered package: name and version together, so that
/// two installed versions of one name stay distinct entries.
pub struct PackageKey {
    name: String,
    version: Version,
}

/// Mathematical value of a `PackageKey`.
pub struct PackageKeyView {
    pub name: Seq<char>,
    pub version: VersionView,
}

impl View for PackageKey {
    type V = PackageKeyView;

    closed spec fn view(&self) -> PackageKeyView {
        PackageKeyView { name: self.name@, version: self.version@ }
    }
}

impl PackageKey {
    /// Build a key from a name and a version.
    pub fn new(name: String, version: Version) -> (r: Self)
        ensures
            r@.name == name@,
            r@.version == version@,
    {
        PackageKey { name, version }
    }

    /// The key's package name.
    pub fn name(&self) -> (r: &str)
        ensures
            r@ == self@.name,
    {
        self.name.as_str()
    }

    /// The key's package version.
    pub fn version(&self) -> (r: &Version)
        ensures
            r@ == self@.version,
    {
        &self.version
    }

    /// Take the key apart into its name and version.
    pub fn into_parts(self) -> (r: (String, Version))
        ensures
            r.0@ == self@.name,
            r.1@ == self@.version,
    {
        (self.name, self.version)
    }

    /// Whether two keys name the same package at the same version.
    pub fn key_eq(&self, other: &PackageKey) -> (r: bool)
        ensures
            r == (self@ == other@),
    {
        proof {
            lemma_version_cmp_equal(self.version@, other.version@);
        }
        crate::order::str_eq(self.name.as_str(), other.name.as_str())
            && self.version.eq_version(&other.version)
    }
}

impl Clone for PackageKey {
    /// The copy holds the same key value.
    fn clone(&self) -> (r: Self)
        ensures
            r@ == self@,
    {
        PackageKey { name: self.name.clone(), version: self.version.clone() }
    }
}

/// A package: name, version, and the executables it installed.
pub struct Package {
    name: String,
    version: Version,
    binaries: Vec<PackageExecutable>,
}

/// Mathematical value of a `Package`.
pub struct PackageView {
    pub name: Seq<char>,
    pub version: VersionView,
    pub binaries: Seq<Seq<char>>,
}

/// The names held by a sequence of executables.
pub open spec fn execs_view(v: Seq<PackageExecutable>) -> Seq<Seq<char>> {
    v.map_values(|e: PackageExecutable| e@)
}

impl View for Package {
    type V = PackageView;

    closed spec fn view(&self) -> PackageView {
        PackageView {
            name: self.name@,
            version: self.version@,
            binaries: execs_view(self.binaries@),
        }
    }
}

impl Package {
    /// Build a package from its parts.
    pub fn new(name: String, version: Version, binaries: Vec<PackageExecutable>) -> (r: Self)
        ensures
            r@.name == name@,
            r@.version == version@,
            r@.binaries == execs_view(binaries@),
    {
        Package { name, version, binaries }
    }

    /// The package's name.
    pub fn name(&self) -> (r: &str)
        ensures
            r@ == self@.name,
    {
        self.name.as_str()
    }

    /// The package's installed version.
    pub fn version(&self) -> (r: &Version)
        ensures
            r@ == self@.version,
    {
        &self.version
    }

    /// The executables the package installed.
    pub fn binaries(&self) -> (r: &Vec<PackageExecutable>)
        ensures
            execs_view(r@) == self@.binaries,
    {
        &self.binaries
    }
}

/// Copy a list of executables.
fn clone_execs(v: &Vec<PackageExecutable>) -> (r: Vec<PackageExecutable>)
    ensures
        execs_view(r@) == execs_view(v@),
{
    let mut out: Vec<PackageExecutable> = Vec::new();
    let mut i: usize = 0;
    while i < v.len()
        invariant
            0 <= i <= v@.len(),
            out@.len() == i,
            execs_view(out@) =~= execs_view(v@).take(i as int),
        decreases v@.len() - i,
    {
        let ghost prev = out@;
        out.push(v[i].clone());
        proof {
            assert forall|j: int| 0 <= j < i + 1 implies execs_view(out@)[j] == execs_view(
                v@,
            ).take(i + 1)[j] by {
                assert(execs_view(out@)[j] == out@[j]@);
                if j < i {
                    assert(out@[j] == prev[j]);
                    assert(execs_view(prev)[j] == prev[j]@);
                }
            }
            assert(execs_view(out@) =~= execs_view(v@).take(i + 1));
        }
        i = i + 1;
    }
    proof {
        assert(execs_view(v@).take(v@.len() as int) =~= execs_view(v@));
    }
    out
}

impl Clone for Package {
    /// The copy holds the same package value.
    fn clone(&self) -> (r: Self)
        ensures
            r@ == self@,
    {
        Package {
            name: self.name.clone(),
            version: self.version.clone(),
            binaries: clone_execs(&self.binaries),
        }
    }
}

// ---------------------------------------------------------------------------
// The package total order: by name, then version, then executable list.
// ---------------------------------------------------------------------------

/// Three-way comparison of packages: lexicographic by name, then the full
/// version order, then the executable names lexicographically.
pub open spec fn package_cmp_spec(a: PackageView, b: PackageView) -> Ordering {
    if !(chars_cmp(a.name, b.name) is Equal) {
        chars_cmp(a.name, b.name)
    } else if !(version_cmp_spec(a.version, b.version) is Equal) {
        version_cmp_spec(a.version, b.version)
    } else {
        seq_cmp(a.binaries, b.binaries, chars_cmp_fn())
    }
}

/// Non-strict package order, the order of the sorted inventory.
pub open spec fn package_le_spec(a: PackageView, b: PackageView) -> bool {
    !(package_cmp_spec(a, b) is Greater)
}

/// Compare two executable lists lexicographically by name.
fn binaries_cmp(a: &Vec<PackageExecutable>, b: &Vec<PackageExecutable>) -> (r: Ordering)
    ensures
        r == seq_cmp(execs_view(a@), execs_view(b@), chars_cmp_fn()),
{
    let ghost va = execs_view(a@);
    let ghost vb = execs_view(b@);
    let alen = a.len();
    let blen = b.len();
    let mut i: usize = 0;
    proof {
        assert(va.skip(0) =~= va);
        assert(vb.skip(0) =~= vb);
    }
    loop
        invariant
            0 <= i <= alen,
            i <= blen,
            alen == va.len(),
            blen == vb.len(),
            va == execs_view(a@),
            vb == execs_view(b@),
            seq_cmp(va, vb, chars_cmp_fn()) == seq_cmp(
                va.skip(i as int),
                vb.skip(i as int),
                chars_cmp_fn(),
            ),
        ensures
            i <= alen,
            i <= blen,
            i >= alen || i >= blen,
            seq_cmp(va, vb, chars_cmp_fn()) == seq_cmp(
                va.skip(i as int),
                vb.skip(i as int),
                chars_cmp_fn(),
            ),
        decreases alen - i,
    {
        if i >= alen || i >= blen {
            break;
        }
        let c = str_cmp(a[i].name(), b[i].name());
        proof {
            assert(va.skip(i as int)[0] == va[i as int]);
            assert(vb.skip(i as int)[0] == vb[i as int]);
            assert(chars_cmp_fn()(va[i as int], vb[i as int]) == c);
        }
        match c {
            Ordering::Equal => {
                proof {
                    assert(va.skip(i as int).drop_first() =~= va.skip(i + 1));
                    assert(vb.skip(i as int).drop_first() =~= vb.skip(i + 1));
                }
                i = i + 1;
            },
            other => {
                return other;
            },
        }
    }
    if i < blen {
        proof {
            assert(va.skip(i as int).len() == 0);
            assert(vb.skip(i as int).len() > 0);
        }
        Ordering::Less
    } else if i < alen {
        proof {
            assert(vb.skip(i as int).len() == 0);
            assert(va.skip(i as int).len() > 0);
        }
        Ordering::Greater
    } else {
        proof {
            assert(va.skip(i as int).len() == 0);
            assert(vb.skip(i as int).len() == 0);
        }
        Ordering::Equal
    }
}

impl Package {
    /// Three-way comparison under the package order.
    pub fn cmp_with(&self, other: &Package) -> (r: Ordering)
        ensures
            r == package_cmp_spec(self@, other@),
    {
        match str_cmp(self.name.as_str(), other.name.as_str()) {
            Ordering::Equal => {
                match self.version.cmp_with(&other.version) {
                    Ordering::Equal => binaries_cmp(&self.binaries, &other.binaries),
                    c => c,
                }
            },
            c => c,
        }
    }

    /// Whether `self` precedes or equals `other` in the package order.
    pub fn le(&self, other: &Package) -> (r: bool)
        ensures
            r == package_le_spec(self@, other@),
    {
        match self.cmp_with(other) {
            Ordering::Greater => false,
            _ => true,
        }
    }
}

/// The package order reports `Equal` exactly on equal package values.
pub proof fn lemma_package_cmp_equal(a: PackageView, b: PackageView)
    ensures
        package_cmp_spec(a, b) is Equal <==> a == b,
{
    lemma_chars_cmp_sound();
    lemma_seq_cmp_equal(a.name, b.name, crate::order::char_cmp_fn());
    crate::order::lemma_char_cmp_sound();
    lemma_version_cmp_equal(a.version, b.version);
    lemma_seq_cmp_equal(a.binaries, b.binaries, chars_cmp_fn());
}

/// The package order is antisymmetric.
pub proof fn lemma_package_cmp_flip(a: PackageView, b: PackageView)
    ensures
        package_cmp_spec(a, b) is Less <==> package_cmp_spec(b, a) is Greater,
{
    crate::order::lemma_char_cmp_sound();
    lemma_chars_cmp_sound();
    lemma_seq_cmp_equal(a.name, b.name, crate::order::char_cmp_fn());
    lemma_seq_cmp_equal(b.name, a.name, crate::order::char_cmp_fn());
    lemma_seq_cmp_flip(a.name, b.name, crate::order::char_cmp_fn());
    lemma_seq_cmp_flip(b.name, a.name, crate::order::char_cmp_fn());
    lemma_version_cmp_equal(a.version, b.version);
    lemma_version_cmp_equal(b.version, a.version);
    lemma_version_cmp_flip(a.version, b.version);
    lemma_version_cmp_flip(b.version, a.version);
    lemma_seq_cmp_flip(a.binaries, b.binaries, chars_cmp_fn());
    lemma_seq_cmp_flip(b.binaries, a.binaries, chars_cmp_fn());
}

/// The strict package order is transitive.
pub proof fn lemma_package_cmp_trans(a: PackageView, b: PackageView, c: PackageView)
    requires
        package_cmp_spec(a, b) is Less,
        package_cmp_spec(b, c) is Less,
    ensures
        package_cmp_spec(a, c) is Less,
{
    crate::order::lemma_char_cmp_sound();
    lemma_chars_cmp_sound();
    lemma_seq_cmp_equal(a.name, b.name, crate::order::char_cmp_fn());
    lemma_seq_cmp_equal(b.name, c.name, crate::order::char_cmp_fn());
    lemma_seq_cmp_equal(a.name, c.name, crate::order::char_cmp_fn());
    lemma_version_cmp_equal(a.version, b.version);
    lemma_version_cmp_equal(b.version, c.version);
    lemma_version_cmp_equal(a.version, c.version);
    if chars_cmp(a.name, b.name) is Less && chars_cmp(b.name, c.name) is Less {
        lemma_seq_cmp_trans(a.name, b.name, c.name, crate::order::char_cmp_fn());
    } else if chars_cmp(a.name, b.name) is Equal && chars_cmp(b.name, c.name) is Equal {
        if version_cmp_spec(a.version, b.version) is Less && version_cmp_spec(
            b.version,
            c.version,
        ) is Less {
            lemma_version_cmp_trans(a.version, b.version, c.version);
        } else if version_cmp_spec(a.version, b.version) is Equal && version_cmp_spec(
            b.version,
            c.version,
        ) is Equal {
            lemma_seq_cmp_trans(a.binaries, b.binaries, c.binaries, chars_cmp_fn());
        }
    }
}

/// The package order is a total order: for any two package values exactly
/// one of "less", "greater", "equal" holds, equality being equality of the
/// values.
pub proof fn lemma_package_order_trichotomy(a: PackageView, b: PackageView)
    ensures
        package_cmp_spec(a, b) is Equal <==> a == b,
        package_cmp_spec(a, b) is Less <==> package_cmp_spec(b, a) is Greater,
        package_cmp_spec(a, b) is Less || package_cmp_spec(a, b) is Equal || package_cmp_spec(
            a,
            b,
        ) is Greater,
{
    lemma_package_cmp_equal(a, b);
    lemma_package_cmp_flip(a, b);
}

} // verus!
