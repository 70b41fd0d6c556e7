//! Semantic versions as plain values, with the full precedence order:
//! major, minor and patch numerically, then pre-release identifiers
//! (numeric before alphanumeric, shorter identifier lists before longer),
//! then build metadata as the final tie-break.

use vstd::prelude::*;

use crate::order::{
    char_cmp_fn, chars_cmp, chars_cmp_fn, cmp_sound, lemma_chars_cmp_sound, lemma_seq_cmp_equal,
    lemma_seq_cmp_flip, lemma_seq_cmp_sound, lemma_seq_cmp_trans, seq_cmp, str_cmp, Ordering,
};

verus! {

/// A semantic version: numeric core, pre-release identifiers and build
/// metadata identifiers, each identifier one dot-separated component.
pub struct Version {
    pub major: u64,
    pub minor: u64,
    pub patch: u64,
    pub pre: Vec<String>,
    pub build: Vec<String>,
}

/// Mathematical value of a `Version`.
pub struct VersionView {
    pub major: int,
    pub minor: int,
    pub patch: int,
    pub pre: Seq<Seq<char>>,
    pub build: Seq<Seq<char>>,
}

/// The character sequences held by a sequence of strings.
pub open spec fn strs_view(v: Seq<String>) -> Seq<Seq<char>> {
    v.map_values(|s: String| s@)
}

impl View for Version {
    type V = VersionView;

    open spec fn view(&self) -> VersionView {
        VersionView {
            major: self.major as int,
            minor: self.minor as int,
            patch: self.patch as int,
            pre: strs_view(self.pre@),
            build: strs_view(self.build@),
        }
    }
}

/// Whether an identifier consists of ASCII digits only.
pub open spec fn ident_is_numeric(s: Seq<char>) -> bool {
    forall|i: int| 0 <= i < s.len() ==> '0' as int <= #[trigger] s[i] as int <= '9' as int
}

/// Pre-release identifier order: numeric identifiers compare numerically
/// (equal length then digit order, leading zeros being excluded from valid
/// versions), numeric sorts before alphanumeric, alphanumeric compares
/// lexically in code-point order.
pub open spec fn pre_ident_cmp(a: Seq<char>, b: Seq<char>) -> Ordering {
    if ident_is_numeric(a) && ident_is_numeric(b) {
        if a.len() < b.len() {
            Ordering::Less
        } else if a.len() > b.len() {
            Ordering::Greater
        } else {
            chars_cmp(a, b)
        }
    } else if ident_is_numeric(a) {
        Ordering::Less
    } else if ident_is_numeric(b) {
        Ordering::Greater
    } else {
        chars_cmp(a, b)
    }
}

pub open spec fn pre_ident_cmp_fn() -> spec_fn(Seq<char>, Seq<char>) -> Ordering {
    |a: Seq<char>, b: Seq<char>| pre_ident_cmp(a, b)
}

/// An identifier without its leading zero characters.
pub open spec fn trim_zeros(s: Seq<char>) -> Seq<char>
    decreases s.len(),
{
    if s.len() > 0 && s[0] == '0' {
        trim_zeros(s.drop_first())
    } else {
        s
    }
}

/// Build metadata identifier order: numeric identifiers compare by their
/// value (leading zeros may appear here, so digits are compared with the
/// zeros trimmed, the full length deciding ties), numeric sorts before
/// alphanumeric, alphanumeric compares lexically.
pub open spec fn build_ident_cmp(a: Seq<char>, b: Seq<char>) -> Ordering {
    if ident_is_numeric(a) && ident_is_numeric(b) {
        let ta = trim_zeros(a);
        let tb = trim_zeros(b);
        if ta.len() < tb.len() {
            Ordering::Less
        } else if ta.len() > tb.len() {
            Ordering::Greater
        } else if chars_cmp(ta, tb) is Equal {
            if a.len() < b.len() {
                Ordering::Less
            } else if a.len() > b.len() {
                Ordering::Greater
            } else {
                Ordering::Equal
            }
        } else {
            chars_cmp(ta, tb)
        }
    } else if ident_is_numeric(a) {
        Ordering::Less
    } else if ident_is_numeric(b) {
        Ordering::Greater
    } else {
        chars_cmp(a, b)
    }
}

pub open spec fn build_ident_cmp_fn() -> spec_fn(Seq<char>, Seq<char>) -> Ordering {
    |a: Seq<char>, b: Seq<char>| build_ident_cmp(a, b)
}

/// Pre-release order over whole identifier lists: a release (no
/// identifiers) sorts above any pre-release; otherwise identifier lists
/// compare lexicographically, a strict prefix first.
pub open spec fn prerelease_cmp(a: Seq<Seq<char>>, b: Seq<Seq<char>>) -> Ordering {
    if a.len() == 0 && b.len() == 0 {
        Ordering::Equal
    } else if a.len() == 0 {
        Ordering::Greater
    } else if b.len() == 0 {
        Ordering::Less
    } else {
        seq_cmp(a, b, pre_ident_cmp_fn())
    }
}

/// Build metadata order over whole identifier lists: lexicographic, a
/// strict prefix (and so the empty list) first.
pub open spec fn build_cmp(a: Seq<Seq<char>>, b: Seq<Seq<char>>) -> Ordering {
    seq_cmp(a, b, build_ident_cmp_fn())
}

/// The full version order: numeric core, then pre-release, then build
/// metadata.
pub open spec fn version_cmp_spec(a: VersionView, b: VersionView) -> Ordering {
    if a.major < b.major {
        Ordering::Less
    } else if a.major > b.major {
        Ordering::Greater
    } else if a.minor < b.minor {
        Ordering::Less
    } else if a.minor > b.minor {
        Ordering::Greater
    } else if a.patch < b.patch {
        Ordering::Less
    } else if a.patch > b.patch {
        Ordering::Greater
    } else if prerelease_cmp(a.pre, b.pre) is Equal {
        build_cmp(a.build, b.build)
    } else {
        prerelease_cmp(a.pre, b.pre)
    }
}

pub open spec fn version_le_spec(a: VersionView, b: VersionView) -> bool {
    !(version_cmp_spec(a, b) is Greater)
}

// ---------------------------------------------------------------------------
// Soundness of the identifier orders.
// ---------------------------------------------------------------------------

proof fn lemma_chars_cmp_equal(a: Seq<char>, b: Seq<char>)
    ensures
        chars_cmp(a, b) is Equal <==> a == b,
{
    lemma_char_cmp_sound_local();
    lemma_seq_cmp_equal(a, b, char_cmp_fn());
}

proof fn lemma_char_cmp_sound_local()
    ensures
        cmp_sound(char_cmp_fn()),
{
    crate::order::lemma_char_cmp_sound();
}

proof fn lemma_chars_cmp_flip(a: Seq<char>, b: Seq<char>)
    ensures
        chars_cmp(a, b) is Less <==> chars_cmp(b, a) is Greater,
{
    lemma_char_cmp_sound_local();
    lemma_seq_cmp_flip(a, b, char_cmp_fn());
}

proof fn lemma_chars_cmp_trans(a: Seq<char>, b: Seq<char>, c: Seq<char>)
    requires
        chars_cmp(a, b) is Less,
        chars_cmp(b, c) is Less,
    ensures
        chars_cmp(a, c) is Less,
{
    lemma_char_cmp_sound_local();
    lemma_seq_cmp_trans(a, b, c, char_cmp_fn());
}

proof fn lemma_pre_ident_cmp_equal(a: Seq<char>, b: Seq<char>)
    ensures
        pre_ident_cmp(a, b) is Equal <==> a == b,
{
    lemma_chars_cmp_equal(a, b);
}

proof fn lemma_pre_ident_cmp_flip(a: Seq<char>, b: Seq<char>)
    ensures
        pre_ident_cmp(a, b) is Less <==> pre_ident_cmp(b, a) is Greater,
{
    lemma_chars_cmp_flip(a, b);
    lemma_chars_cmp_flip(b, a);
}

proof fn lemma_pre_ident_cmp_trans(a: Seq<char>, b: Seq<char>, c: Seq<char>)
    requires
        pre_ident_cmp(a, b) is Less,
        pre_ident_cmp(b, c) is Less,
    ensures
        pre_ident_cmp(a, c) is Less,
{
    if ident_is_numeric(a) && ident_is_numeric(b) && ident_is_numeric(c) {
        if a.len() == b.len() && b.len() == c.len() {
            lemma_chars_cmp_trans(a, b, c);
        }
    } else if !ident_is_numeric(a) && !ident_is_numeric(b) && !ident_is_numeric(c) {
        lemma_chars_cmp_trans(a, b, c);
    }
}

pub proof fn lemma_pre_ident_cmp_sound()
    ensures
        cmp_sound(pre_ident_cmp_fn()),
{
    let f = pre_ident_cmp_fn();
    assert forall|x: Seq<char>, y: Seq<char>| #[trigger] f(x, y) is Equal <==> x == y by {
        lemma_pre_ident_cmp_equal(x, y);
    }
    assert forall|x: Seq<char>, y: Seq<char>| #[trigger] f(x, y) is Less <==> #[trigger] f(
        y,
        x,
    ) is Greater by {
        lemma_pre_ident_cmp_flip(x, y);
    }
    assert forall|x: Seq<char>, y: Seq<char>, z: Seq<char>|
        #[trigger] f(x, y) is Less && #[trigger] f(y, z) is Less implies f(x, z) is Less by {
        lemma_pre_ident_cmp_trans(x, y, z);
    }
}

/// `trim_zeros` removes exactly the leading zero characters.
proof fn lemma_trim_zeros_shape(s: Seq<char>)
    ensures
        trim_zeros(s).len() <= s.len(),
        trim_zeros(s) =~= s.skip(s.len() - trim_zeros(s).len()),
        forall|i: int| 0 <= i < s.len() - trim_zeros(s).len() ==> #[trigger] s[i] == '0',
    decreases s.len(),
{
    if s.len() > 0 && s[0] == '0' {
        lemma_trim_zeros_shape(s.drop_first());
        let t = trim_zeros(s);
        assert(t == trim_zeros(s.drop_first()));
        assert(s.drop_first().skip(s.drop_first().len() - t.len()) =~= s.skip(s.len() - t.len()));
        assert forall|i: int| 0 <= i < s.len() - t.len() implies #[trigger] s[i] == '0' by {
            if i > 0 {
                assert(s.drop_first()[i - 1] == '0');
            }
        }
    } else {
        assert(s.skip(0) =~= s);
    }
}

proof fn lemma_build_ident_cmp_equal(a: Seq<char>, b: Seq<char>)
    ensures
        build_ident_cmp(a, b) is Equal <==> a == b,
{
    lemma_chars_cmp_equal(a, b);
    if ident_is_numeric(a) && ident_is_numeric(b) {
        let ta = trim_zeros(a);
        let tb = trim_zeros(b);
        lemma_trim_zeros_shape(a);
        lemma_trim_zeros_shape(b);
        lemma_chars_cmp_equal(ta, tb);
        if build_ident_cmp(a, b) is Equal {
            assert(ta == tb);
            assert(a.len() == b.len());
            assert forall|i: int| 0 <= i < a.len() implies a[i] == b[i] by {
                let k = a.len() - ta.len();
                if i < k {
                    assert(a[i] == '0');
                    assert(b[i] == '0');
                } else {
                    assert(a.skip(k)[i - k] == a[i]);
                    assert(b.skip(k)[i - k] == b[i]);
                }
            }
            assert(a =~= b);
        }
    }
}

proof fn lemma_build_ident_cmp_flip(a: Seq<char>, b: Seq<char>)
    ensures
        build_ident_cmp(a, b) is Less <==> build_ident_cmp(b, a) is Greater,
{
    lemma_chars_cmp_flip(a, b);
    lemma_chars_cmp_flip(b, a);
    if ident_is_numeric(a) && ident_is_numeric(b) {
        lemma_chars_cmp_flip(trim_zeros(a), trim_zeros(b));
        lemma_chars_cmp_flip(trim_zeros(b), trim_zeros(a));
        lemma_chars_cmp_equal(trim_zeros(a), trim_zeros(b));
        lemma_chars_cmp_equal(trim_zeros(b), trim_zeros(a));
    }
}

proof fn lemma_build_ident_cmp_trans(a: Seq<char>, b: Seq<char>, c: Seq<char>)
    requires
        build_ident_cmp(a, b) is Less,
        build_ident_cmp(b, c) is Less,
    ensures
        build_ident_cmp(a, c) is Less,
{
    if ident_is_numeric(a) && ident_is_numeric(b) && ident_is_numeric(c) {
        let ta = trim_zeros(a);
        let tb = trim_zeros(b);
        let tc = trim_zeros(c);
        lemma_chars_cmp_equal(ta, tb);
        lemma_chars_cmp_equal(tb, tc);
        lemma_chars_cmp_equal(ta, tc);
        if ta.len() == tb.len() && tb.len() == tc.len() {
            if chars_cmp(ta, tb) is Less && chars_cmp(tb, tc) is Less {
                lemma_chars_cmp_trans(ta, tb, tc);
            }
        }
    } else if !ident_is_numeric(a) && !ident_is_numeric(b) && !ident_is_numeric(c) {
        lemma_chars_cmp_trans(a, b, c);
    }
}

pub proof fn lemma_build_ident_cmp_sound()
    ensures
        cmp_sound(build_ident_cmp_fn()),
{
    let f = build_ident_cmp_fn();
    assert forall|x: Seq<char>, y: Seq<char>| #[trigger] f(x, y) is Equal <==> x == y by {
        lemma_build_ident_cmp_equal(x, y);
    }
    assert forall|x: Seq<char>, y: Seq<char>| #[trigger] f(x, y) is Less <==> #[trigger] f(
        y,
        x,
    ) is Greater by {
        lemma_build_ident_cmp_flip(x, y);
    }
    assert forall|x: Seq<char>, y: Seq<char>, z: Seq<char>|
        #[trigger] f(x, y) is Less && #[trigger] f(y, z) is Less implies f(x, z) is Less by {
        lemma_build_ident_cmp_trans(x, y, z);
    }
}

// ---------------------------------------------------------------------------
// Soundness of the whole version order.
// ---------------------------------------------------------------------------

proof fn lemma_prerelease_cmp_props(a: Seq<Seq<char>>, b: Seq<Seq<char>>)
    ensures
        prerelease_cmp(a, b) is Equal <==> a == b,
        prerelease_cmp(a, b) is Less <==> prerelease_cmp(b, a) is Greater,
{
    lemma_pre_ident_cmp_sound();
    lemma_seq_cmp_equal(a, b, pre_ident_cmp_fn());
    lemma_seq_cmp_flip(a, b, pre_ident_cmp_fn());
    lemma_seq_cmp_flip(b, a, pre_ident_cmp_fn());
}

proof fn lemma_prerelease_cmp_trans(a: Seq<Seq<char>>, b: Seq<Seq<char>>, c: Seq<Seq<char>>)
    requires
        prerelease_cmp(a, b) is Less,
        prerelease_cmp(b, c) is Less,
    ensures
        prerelease_cmp(a, c) is Less,
{
    lemma_pre_ident_cmp_sound();
    if a.len() != 0 && b.len() != 0 && c.len() != 0 {
        lemma_seq_cmp_trans(a, b, c, pre_ident_cmp_fn());
    }
}

proof fn lemma_build_cmp_props(a: Seq<Seq<char>>, b: Seq<Seq<char>>)
    ensures
        build_cmp(a, b) is Equal <==> a == b,
        build_cmp(a, b) is Less <==> build_cmp(b, a) is Greater,
{
    lemma_build_ident_cmp_sound();
    lemma_seq_cmp_equal(a, b, build_ident_cmp_fn());
    lemma_seq_cmp_flip(a, b, build_ident_cmp_fn());
    lemma_seq_cmp_flip(b, a, build_ident_cmp_fn());
}

proof fn lemma_build_cmp_trans(a: Seq<Seq<char>>, b: Seq<Seq<char>>, c: Seq<Seq<char>>)
    requires
        build_cmp(a, b) is Less,
        build_cmp(b, c) is Less,
    ensures
        build_cmp(a, c) is Less,
{
    lemma_build_ident_cmp_sound();
    lemma_seq_cmp_trans(a, b, c, build_ident_cmp_fn());
}

// ---------------------------------------------------------------------------
// Executable comparison.
// ---------------------------------------------------------------------------

/// Whether every character of `s` is an ASCII digit.
fn is_numeric_ident(s: &str) -> (r: bool)
    ensures
        r == ident_is_numeric(s@),
{
    let len = s.unicode_len();
    let mut i: usize = 0;
    while i < len
        invariant
            0 <= i <= len,
            len == s@.len(),
            forall|j: int| 0 <= j < i ==> '0' as int <= #[trigger] s@[j] as int <= '9' as int,
        decreases len - i,
    {
        let c = s.get_char(i);
        if (c as u32) < ('0' as u32) || (c as u32) > ('9' as u32) {
            return false;
        }
        i = i + 1;
    }
    true
}

/// `trim_zeros` agrees with skipping a prefix of zeros that ends at the
/// first other character.
proof fn lemma_trim_zeros_at(s: Seq<char>, k: int)
    requires
        0 <= k <= s.len(),
        forall|i: int| 0 <= i < k ==> #[trigger] s[i] == '0',
        k == s.len() || s[k] != '0',
    ensures
        trim_zeros(s) =~= s.skip(k),
    decreases k,
{
    if k == 0 {
        assert(s.skip(0) =~= s);
    } else {
        assert(s[0] == '0');
        assert forall|i: int| 0 <= i < k - 1 implies #[trigger] s.drop_first()[i] == '0' by {
            assert(s[i + 1] == '0');
        }
        lemma_trim_zeros_at(s.drop_first(), k - 1);
        assert(s.drop_first().skip(k - 1) =~= s.skip(k));
    }
}

/// The characters of `s` with its leading zeros removed.
fn trimmed_zeros<'a>(s: &'a str) -> (r: &'a str)
    ensures
        r@ == trim_zeros(s@),
{
    let len = s.unicode_len();
    let mut k: usize = 0;
    while k < len && s.get_char(k) as u32 == '0' as u32
        invariant
            0 <= k <= len,
            len == s@.len(),
            forall|i: int| 0 <= i < k ==> #[trigger] s@[i] == '0',
        decreases len - k,
    {
        k = k + 1;
    }
    proof {
        lemma_trim_zeros_at(s@, k as int);
    }
    s.substring_char(k, len)
}

/// Compare two pre-release identifiers.
fn pre_ident_cmp_exec(a: &str, b: &str) -> (r: Ordering)
    ensures
        r == pre_ident_cmp(a@, b@),
{
    let a_num = is_numeric_ident(a);
    let b_num = is_numeric_ident(b);
    if a_num && b_num {
        let alen = a.unicode_len();
        let blen = b.unicode_len();
        if alen < blen {
            Ordering::Less
        } else if alen > blen {
            Ordering::Greater
        } else {
            str_cmp(a, b)
        }
    } else if a_num {
        Ordering::Less
    } else if b_num {
        Ordering::Greater
    } else {
        str_cmp(a, b)
    }
}

/// Compare two build metadata identifiers.
fn build_ident_cmp_exec(a: &str, b: &str) -> (r: Ordering)
    ensures
        r == build_ident_cmp(a@, b@),
{
    let a_num = is_numeric_ident(a);
    let b_num = is_numeric_ident(b);
    if a_num && b_num {
        let ta = trimmed_zeros(a);
        let tb = trimmed_zeros(b);
        let talen = ta.unicode_len();
        let tblen = tb.unicode_len();
        if talen < tblen {
            return Ordering::Less;
        }
        if talen > tblen {
            return Ordering::Greater;
        }
        match str_cmp(ta, tb) {
            Ordering::Equal => {
                let alen = a.unicode_len();
                let blen = b.unicode_len();
                if alen < blen {
                    Ordering::Less
                } else if alen > blen {
                    Ordering::Greater
                } else {
                    Ordering::Equal
                }
            },
            c => c,
        }
    } else if a_num {
        Ordering::Less
    } else if b_num {
        Ordering::Greater
    } else {
        str_cmp(a, b)
    }
}

/// Compare two identifier lists lexicographically, under the pre-release
/// identifier order when `pre_mode` holds, else under the build metadata
/// identifier order.
fn idents_cmp(a: &Vec<String>, b: &Vec<String>, pre_mode: bool) -> (r: Ordering)
    ensures
        r == seq_cmp(
            strs_view(a@),
            strs_view(b@),
            if pre_mode {
                pre_ident_cmp_fn()
            } else {
                build_ident_cmp_fn()
            },
        ),
{
    let ghost f = if pre_mode {
        pre_ident_cmp_fn()
    } else {
        build_ident_cmp_fn()
    };
    let ghost va = strs_view(a@);
    let ghost vb = strs_view(b@);
    let alen = a.len();
    let blen = b.len();
    let mut i: usize = 0;
    proof {
        assert(va.skip(0) =~= va);
        assert(vb.skip(0) =~= vb);
    }
    loop
        invariant
            0 <= i <= alen,
            i <= blen,
            alen == va.len(),
            blen == vb.len(),
            va == strs_view(a@),
            vb == strs_view(b@),
            f == if pre_mode {
                pre_ident_cmp_fn()
            } else {
                build_ident_cmp_fn()
            },
            seq_cmp(va, vb, f) == seq_cmp(va.skip(i as int), vb.skip(i as int), f),
        ensures
            i <= alen,
            i <= blen,
            i >= alen || i >= blen,
            seq_cmp(va, vb, f) == seq_cmp(va.skip(i as int), vb.skip(i as int), f),
        decreases alen - i,
    {
        if i >= alen || i >= blen {
            break;
        }
        let c = if pre_mode {
            pre_ident_cmp_exec(a[i].as_str(), b[i].as_str())
        } else {
            build_ident_cmp_exec(a[i].as_str(), b[i].as_str())
        };
        proof {
            assert(va.skip(i as int)[0] == va[i as int]);
            assert(vb.skip(i as int)[0] == vb[i as int]);
            assert(f(va[i as int], vb[i as int]) == c);
        }
        match c {
            Ordering::Equal => {
                proof {
                    assert(va.skip(i as int).drop_first() =~= va.skip(i + 1));
                    assert(vb.skip(i as int).drop_first() =~= vb.skip(i + 1));
                }
                i = i + 1;
            },
            other => {
                return other;
            },
        }
    }
    if i < blen {
        proof {
            assert(va.skip(i as int).len() == 0);
            assert(vb.skip(i as int).len() > 0);
        }
        Ordering::Less
    } else if i < alen {
        proof {
            assert(vb.skip(i as int).len() == 0);
            assert(va.skip(i as int).len() > 0);
        }
        Ordering::Greater
    } else {
        proof {
            assert(va.skip(i as int).len() == 0);
            assert(vb.skip(i as int).len() == 0);
        }
        Ordering::Equal
    }
}

impl Version {
    /// Build a version from its parts.
    pub fn new(major: u64, minor: u64, patch: u64, pre: Vec<String>, build: Vec<String>) -> (r:
        Version)
        ensures
            r@ == (VersionView {
                major: major as int,
                minor: minor as int,
                patch: patch as int,
                pre: strs_view(pre@),
                build: strs_view(build@),
            }),
    {
        Version { major, minor, patch, pre, build }
    }

    /// Three-way comparison under the full version order.
    pub fn cmp_with(&self, other: &Version) -> (r: Ordering)
        ensures
            r == version_cmp_spec(self@, other@),
    {
        if self.major < other.major {
            return Ordering::Less;
        }
        if self.major > other.major {
            return Ordering::Greater;
        }
        if self.minor < other.minor {
            return Ordering::Less;
        }
        if self.minor > other.minor {
            return Ordering::Greater;
        }
        if self.patch < other.patch {
            return Ordering::Less;
        }
        if self.patch > other.patch {
            return Ordering::Greater;
        }
        let a_empty = self.pre.len() == 0;
        let b_empty = other.pre.len() == 0;
        let pc = if a_empty && b_empty {
            Ordering::Equal
        } else if a_empty {
            Ordering::Greater
        } else if b_empty {
            Ordering::Less
        } else {
            idents_cmp(&self.pre, &other.pre, true)
        };
        match pc {
            Ordering::Equal => idents_cmp(&self.build, &other.build, false),
            other_order => other_order,
        }
    }

    /// Whether `self` precedes or equals `other` in the version order.
    pub fn le(&self, other: &Version) -> (r: bool)
        ensures
            r == version_le_spec(self@, other@),
    {
        match self.cmp_with(other) {
            Ordering::Greater => false,
            _ => true,
        }
    }

    /// Whether `self` and `other` are the same version.
    pub fn eq_version(&self, other: &Version) -> (r: bool)
        ensures
            r == (self@ == other@),
    {
        proof {
            lemma_version_cmp_equal(self@, other@);
        }
        match self.cmp_with(other) {
            Ordering::Equal => true,
            _ => false,
        }
    }
}

/// Copy a list of identifier strings.
fn clone_strings(v: &Vec<String>) -> (r: Vec<String>)
    ensures
        strs_view(r@) == strs_view(v@),
{
    let mut out: Vec<String> = Vec::new();
    let mut i: usize = 0;
    while i < v.len()
        invariant
            0 <= i <= v@.len(),
            out@.len() == i,
            strs_view(out@) =~= strs_view(v@).take(i as int),
        decreases v@.len() - i,
    {
        let ghost prev = out@;
        out.push(v[i].clone());
        proof {
            assert(out@.len() == i + 1);
            assert forall|j: int| 0 <= j < i + 1 implies strs_view(out@)[j] == strs_view(v@).take(
                i + 1,
            )[j] by {
                assert(strs_view(out@)[j] == out@[j]@);
                if j < i {
                    assert(out@[j] == prev[j]);
                    assert(strs_view(prev)[j] == prev[j]@);
                    assert(strs_view(prev)[j] == strs_view(v@).take(i as int)[j]);
                }
            }
            assert(strs_view(out@) =~= strs_view(v@).take(i + 1));
        }
        i = i + 1;
    }
    proof {
        assert(strs_view(v@).take(v@.len() as int) =~= strs_view(v@));
    }
    out
}

impl Clone for Version {
    /// The copy holds the same version value.
    fn clone(&self) -> (r: Self)
        ensures
            r@ == self@,
    {
        Version {
            major: self.major,
            minor: self.minor,
            patch: self.patch,
            pre: clone_strings(&self.pre),
            build: clone_strings(&self.build),
        }
    }
}

/// The version order reports `Equal` exactly on equal version values.
pub proof fn lemma_version_cmp_equal(a: VersionView, b: VersionView)
    ensures
        version_cmp_spec(a, b) is Equal <==> a == b,
{
    lemma_prerelease_cmp_props(a.pre, b.pre);
    lemma_build_cmp_props(a.build, b.build);
}

/// The version order is antisymmetric.
pub proof fn lemma_version_cmp_flip(a: VersionView, b: VersionView)
    ensures
        version_cmp_spec(a, b) is Less <==> version_cmp_spec(b, a) is Greater,
{
    lemma_prerelease_cmp_props(a.pre, b.pre);
    lemma_prerelease_cmp_props(b.pre, a.pre);
    lemma_build_cmp_props(a.build, b.build);
    lemma_build_cmp_props(b.build, a.build);
}

/// The strict version order is transitive.
pub proof fn lemma_version_cmp_trans(a: VersionView, b: VersionView, c: VersionView)
    requires
        version_cmp_spec(a, b) is Less,
        version_cmp_spec(b, c) is Less,
    ensures
        version_cmp_spec(a, c) is Less,
{
    lemma_prerelease_cmp_props(a.pre, b.pre);
    lemma_prerelease_cmp_props(b.pre, c.pre);
    lemma_prerelease_cmp_props(a.pre, c.pre);
    lemma_build_cmp_props(a.build, b.build);
    lemma_build_cmp_props(b.build, c.build);
    if a.major == c.major && a.minor == c.minor && a.patch == c.patch {
        if prerelease_cmp(a.pre, b.pre) is Less && prerelease_cmp(b.pre, c.pre) is Less {
            lemma_prerelease_cmp_trans(a.pre, b.pre, c.pre);
        } else if prerelease_cmp(a.pre, b.pre) is Equal && prerelease_cmp(b.pre, c.pre) is Equal {
            lemma_build_cmp_trans(a.build, b.build, c.build);
        }
    }
}

} // verus!
