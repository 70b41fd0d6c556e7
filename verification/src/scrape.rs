//! The fallback executable scraper's parsing heuristic: a binary's
//! version banner is read by taking the first whitespace-delimited token
//! of the first line as the package name (case-folded), and scanning all
//! tokens, line by line from the start of the output, for the first one
//! holding a version-like substring that parses as a strict semantic
//! version. The heuristic is deliberately naive and is preserved as it
//! stands: a binary's self-reported name need not match its owning
//! package, which is an accepted limitation of the fallback.

use vstd::prelude::*;

use crate::discovery::{add_exec_model, DiscoveryMap};
use crate::package::{PackageExecutable, PackageKey, PackageKeyView};
use crate::parse::{parse_version, parsed_version_view, semver_parse};
use crate::updater::opt_version_view;
use crate::version::{Version, VersionView};

verus! {

/// What char::is_whitespace holds of a character: the Unicode
/// white-space classification, a function of the character alone.
pub uninterp spec fn is_ws(c: char) -> bool;

/// Relies on char::is_whitespace: the Unicode white-space property.
/// Space, tab, carriage return and line feed are white space; the other
/// printable ASCII characters are not.
#[verifier::external_body]
fn char_is_ws(c: char) -> (r: bool)
    ensures
        r == is_ws(c),
        c == ' ' || c == '\t' || c == '\r' || c == '\n' ==> r,
        '!' as int <= c as int <= '~' as int ==> !r,
{
    c.is_whitespace()
}

/// What the version-candidate scan yields on a token: the first
/// substring matching a version-like shape — an optional `v`, then two or
/// three dot-separated runs of digits — without the `v`; a function of
/// the token alone, the pattern being fixed.
pub uninterp spec fn version_candidate(s: Seq<char>) -> Option<Seq<char>>;

/// Relies on regex::Regex::new and regex::Regex::captures, with the
/// fixed pattern `v?(\d+\.\d+(?:\.\d+)?)`: the first match's inner
/// capture group, which drops the optional leading `v`.
#[verifier::external_body]
fn version_candidate_exec(chunk: &str) -> (r: Option<String>)
    ensures
        r matches Some(c) ==> version_candidate(chunk@) == Some(c@),
        r is None <==> version_candidate(chunk@) is None,
{
    let re = regex::Regex::new(r"v?(\d+\.\d+(?:\.\d+)?)").unwrap();
    re.captures(chunk).and_then(|c| c.get(1)).map(|m| m.as_str().to_string())
}

/// What str::to_lowercase yields: the Unicode lowercase mapping of the
/// characters, a function of the characters alone. An empty string stays
/// empty.
pub uninterp spec fn lower_of(s: Seq<char>) -> Seq<char>;

/// Relies on str::to_lowercase: the Unicode lowercasing of the string,
/// depending on its characters alone.
#[verifier::external_body]
fn to_lowercase_exec(s: &str) -> (r: String)
    ensures
        r@ == lower_of(s@),
        s@.len() == 0 ==> r@.len() == 0,
{
    s.to_lowercase()
}

/// The first non-whitespace position at or after `i`.
pub open spec fn next_token_start(s: Seq<char>, i: int) -> int
    decreases s.len() - i when 0 <= i <= s.len()
{
    if i >= s.len() {
        i
    } else if !is_ws(s[i]) {
        i
    } else {
        next_token_start(s, i + 1)
    }
}

/// The first whitespace position at or after `i`: the end of the token
/// starting there.
pub open spec fn run_end(s: Seq<char>, i: int) -> int
    decreases s.len() - i when 0 <= i <= s.len()
{
    if i >= s.len() {
        i
    } else if is_ws(s[i]) {
        i
    } else {
        run_end(s, i + 1)
    }
}

/// The first line-feed position at or after `i`: the end of the first
/// line when starting from zero.
pub open spec fn line_end(s: Seq<char>, i: int) -> int
    decreases s.len() - i when 0 <= i <= s.len()
{
    if i >= s.len() {
        i
    } else if s[i] == '\n' {
        i
    } else {
        line_end(s, i + 1)
    }
}

proof fn lemma_next_token_start_bounds(s: Seq<char>, i: int)
    requires
        0 <= i <= s.len(),
    ensures
        i <= next_token_start(s, i) <= s.len(),
        next_token_start(s, i) < s.len() ==> !is_ws(s[next_token_start(s, i)]),
    decreases s.len() - i,
{
    if i < s.len() && is_ws(s[i]) {
        lemma_next_token_start_bounds(s, i + 1);
    }
}

proof fn lemma_run_end_bounds(s: Seq<char>, i: int)
    requires
        0 <= i <= s.len(),
    ensures
        i <= run_end(s, i) <= s.len(),
    decreases s.len() - i,
{
    if i < s.len() && !is_ws(s[i]) {
        lemma_run_end_bounds(s, i + 1);
    }
}

proof fn lemma_line_end_bounds(s: Seq<char>, i: int)
    requires
        0 <= i <= s.len(),
    ensures
        i <= line_end(s, i) <= s.len(),
    decreases s.len() - i,
{
    if i < s.len() && s[i] != '\n' {
        lemma_line_end_bounds(s, i + 1);
    }
}

/// The version a single token yields: the candidate substring, strictly
/// parsed; nothing when there is no candidate or it does not parse.
pub open spec fn token_version(tok: Seq<char>) -> Option<VersionView> {
    match version_candidate(tok) {
        None => None,
        Some(cap) => match semver_parse(cap) {
            None => None,
            Some(t) => Some(parsed_version_view(t)),
        },
    }
}

#[via_fn]
proof fn find_version_from_decreases(s: Seq<char>, i: int) {
    lemma_next_token_start_bounds(s, i);
    let j = next_token_start(s, i);
    if j < s.len() {
        lemma_run_end_bounds(s, j + 1);
    }
}

/// The first token at or after `i` whose candidate parses as a version,
/// scanning tokens left to right.
pub open spec fn find_version_from(s: Seq<char>, i: int) -> Option<VersionView>
    decreases s.len() - i when 0 <= i <= s.len() via find_version_from_decreases
{
    let j = next_token_start(s, i);
    if j >= s.len() {
        None
    } else {
        let k = run_end(s, j + 1);
        match token_version(s.subrange(j, k)) {
            Some(v) => Some(v),
            None => find_version_from(s, k),
        }
    }
}

/// The first whitespace-delimited token of the first line, if any.
pub open spec fn banner_name(s: Seq<char>) -> Option<Seq<char>> {
    let line = s.take(line_end(s, 0));
    let j = next_token_start(line, 0);
    if j >= line.len() {
        None
    } else {
        Some(line.subrange(j, run_end(line, j + 1)))
    }
}

/// What a banner and a file name scrape to: nothing unless both a name
/// token and a version are found; else the case-folded name with the
/// version as the package key, and the case-folded file name as the
/// executable.
pub open spec fn banner_key(output: Seq<char>, file: Seq<char>) -> Option<
    (PackageKeyView, Seq<char>),
> {
    match banner_name(output) {
        None => None,
        Some(tok) => match find_version_from(output, 0) {
            None => None,
            Some(vv) => Some(
                (PackageKeyView { name: lower_of(tok), version: vv }, lower_of(file)),
            ),
        },
    }
}

/// The first non-whitespace position at or after `from`.
pub(crate) fn token_start_exec(s: &str, from: usize) -> (r: usize)
    requires
        from <= s@.len(),
    ensures
        r == next_token_start(s@, from as int),
        from <= r <= s@.len(),
        r < s@.len() ==> !is_ws(s@[r as int]),
{
    let len = s.unicode_len();
    let mut i: usize = from;
    while i < len && char_is_ws(s.get_char(i))
        invariant
            from <= i <= len,
            len == s@.len(),
            next_token_start(s@, from as int) == next_token_start(s@, i as int),
        decreases len - i,
    {
        i = i + 1;
    }
    i
}

/// The first whitespace position at or after `from`.
pub(crate) fn token_end_exec(s: &str, from: usize) -> (r: usize)
    requires
        from <= s@.len(),
    ensures
        r == run_end(s@, from as int),
        from <= r <= s@.len(),
{
    let len = s.unicode_len();
    let mut i: usize = from;
    while i < len && !char_is_ws(s.get_char(i))
        invariant
            from <= i <= len,
            len == s@.len(),
            run_end(s@, from as int) == run_end(s@, i as int),
        decreases len - i,
    {
        i = i + 1;
    }
    i
}

/// The first line-feed position at or after `from`.
fn line_end_exec(s: &str, from: usize) -> (r: usize)
    requires
        from <= s@.len(),
    ensures
        r == line_end(s@, from as int),
        from <= r <= s@.len(),
{
    let len = s.unicode_len();
    let mut i: usize = from;
    while i < len && (s.get_char(i) as u32) != ('\n' as u32)
        invariant
            from <= i <= len,
            len == s@.len(),
            line_end(s@, from as int) == line_end(s@, i as int),
        decreases len - i,
    {
        i = i + 1;
    }
    i
}

/// Find the first version in a string: every whitespace-delimited token
/// is scanned for a version-like substring, and the first token whose
/// candidate parses as a strict semantic version wins. This is not a
/// correct version parser, just the banner heuristic.
pub fn find_version(text: &str) -> (r: Option<Version>)
    ensures
        opt_version_view(r) == find_version_from(text@, 0),
{
    let len = text.unicode_len();
    let mut i: usize = 0;
    loop
        invariant
            0 <= i <= len,
            len == text@.len(),
            find_version_from(text@, 0) == find_version_from(text@, i as int),
        decreases len - i,
    {
        let j = token_start_exec(text, i);
        if j >= len {
            proof {
                assert(find_version_from(text@, i as int) is None);
            }
            return None;
        }
        proof {
            assert(next_token_start(text@, j as int) == j as int);
            assert(find_version_from(text@, i as int) == find_version_from(text@, j as int));
        }
        let k = token_end_exec(text, j + 1);
        let tok = text.substring_char(j, k);
        proof {
            assert(tok@ == text@.subrange(j as int, k as int));
        }
        let candidate = version_candidate_exec(tok);
        match candidate {
            Some(cap) => {
                match parse_version(cap.as_str()) {
                    Some(v) => {
                        proof {
                            assert(token_version(text@.subrange(j as int, k as int)) == Some(v@));
                        }
                        return Some(v);
                    },
                    None => {
                        proof {
                            assert(token_version(text@.subrange(j as int, k as int)) is None);
                        }
                    },
                }
            },
            None => {
                proof {
                    assert(token_version(text@.subrange(j as int, k as int)) is None);
                }
            },
        }
        proof {
            assert(find_version_from(text@, j as int) == find_version_from(text@, k as int));
            lemma_run_end_bounds(text@, j + 1);
        }
        i = k;
    }
}

/// The naive package scraper that reads version banners of local
/// binaries; slower and heuristic, used only when the structured
/// metadata strategy fails.
pub struct BinaryInvocationScraper;

impl BinaryInvocationScraper {
    /// Parse one binary's banner: the first token of the first line,
    /// case-folded, is taken as the package name; the first version-like
    /// token anywhere in the output as the version; the case-folded file
    /// name becomes the executable. A banner yielding no name or no
    /// version is skipped silently, as many binaries print no
    /// conventional banner.
    pub fn parse_banner(output: &str, file_name: &str) -> (r: Option<
        (PackageKey, PackageExecutable),
    >)
        ensures
            r is Some <==> banner_key(output@, file_name@) is Some,
            r matches Some(p) ==> banner_key(output@, file_name@) matches Some(bk) && p.0@ == bk.0
                && p.1@ == bk.1,
    {
        let nl = line_end_exec(output, 0);
        let line = output.substring_char(0, nl);
        proof {
            assert(line@ == output@.take(line_end(output@, 0)));
        }
        let j = token_start_exec(line, 0);
        if j >= line.unicode_len() {
            proof {
                assert(banner_name(output@) is None);
            }
            return None;
        }
        let k = token_end_exec(line, j + 1);
        let tok = line.substring_char(j, k);
        proof {
            assert(next_token_start(line@, j as int) == j as int);
            assert(banner_name(output@) == Some(line@.subrange(j as int, k as int)));
            assert(tok@ == line@.subrange(j as int, k as int));
        }
        let version = match find_version(output) {
            Some(v) => v,
            None => {
                return None;
            },
        };
        let name = to_lowercase_exec(tok);
        let exec_name = to_lowercase_exec(file_name);
        let key = PackageKey::new(name, version);
        let exec = PackageExecutable::new(exec_name);
        Some((key, exec))
    }

    /// Scrape one binary's banner into the discovery map: a parsed
    /// banner's executable joins its key's list, and a banner without a
    /// name or version leaves the map as it was.
    pub fn accumulate(map: &mut DiscoveryMap, output: &str, file_name: &str)
        requires
            old(map).wf(),
        ensures
            final(map).wf(),
            match banner_key(output@, file_name@) {
                Some(bk) => final(map).model() == add_exec_model(old(map).model(), bk.0, bk.1),
                None => final(map).model() == old(map).model(),
            },
    {
        match Self::parse_banner(output, file_name) {
            Some((key, exec)) => {
                map.add_binary(key, exec);
            },
            None => {},
        }
    }
}

} // verus!
