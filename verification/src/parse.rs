//! Parsing of semantic versions: strict parsing through the semver crate,
//! with the dotted identifier lists split by verified code.

use vstd::prelude::*;

use crate::version::{strs_view, Version, VersionView};

verus! {

/// Splitting a character sequence at every dot, as one more segment than
/// there are dots; an empty input is one empty segment.
pub open spec fn split_dots(s: Seq<char>) -> Seq<Seq<char>>
    decreases s.len(),
{
    if s.len() == 0 {
        seq![Seq::<char>::empty()]
    } else {
        let rest = split_dots(s.drop_last());
        if s.last() == '.' {
            rest.push(Seq::<char>::empty())
        } else {
            rest.update(rest.len() - 1, rest.last().push(s.last()))
        }
    }
}

proof fn lemma_split_dots_nonempty(s: Seq<char>)
    ensures
        split_dots(s).len() >= 1,
    decreases s.len(),
{
    if s.len() > 0 {
        lemma_split_dots_nonempty(s.drop_last());
    }
}

/// The identifier list a raw dotted component stands for: empty when the
/// component is absent, else its dot-separated segments.
pub open spec fn idents_of(raw: Seq<char>) -> Seq<Seq<char>> {
    if raw.len() == 0 {
        Seq::<Seq<char>>::empty()
    } else {
        split_dots(raw)
    }
}

/// Split a string at every dot.
pub fn split_dots_exec(s: &str) -> (r: Vec<String>)
    ensures
        strs_view(r@) == split_dots(s@),
        r@.len() >= 1,
{
    let len = s.unicode_len();
    let mut out: Vec<String> = Vec::new();
    let mut start: usize = 0;
    let mut i: usize = 0;
    proof {
        assert(s@.take(0) =~= Seq::<char>::empty());
        assert(s@.subrange(0, 0) =~= Seq::<char>::empty());
        assert(split_dots(s@.take(0)) =~= strs_view(out@).push(s@.subrange(0, 0)));
    }
    while i < len
        invariant
            0 <= start <= i <= len,
            len == s@.len(),
            split_dots(s@.take(i as int)) == strs_view(out@).push(
                s@.subrange(start as int, i as int),
            ),
        decreases len - i,
    {
        let c = s.get_char(i);
        let ghost prefix = s@.take(i as int);
        let ghost segment = s@.subrange(start as int, i as int);
        proof {
            assert(s@.take(i + 1).drop_last() =~= prefix);
            assert(s@.take(i + 1).last() == s@[i as int]);
            lemma_split_dots_nonempty(prefix);
        }
        if (c as u32) == ('.' as u32) {
            let piece = s.substring_char(start, i);
            let ghost prev = out@;
            out.push(piece.to_owned());
            proof {
                assert(strs_view(out@) =~= strs_view(prev).push(segment)) by {
                    assert forall|j: int| 0 <= j < out@.len() implies strs_view(out@)[j]
                        == strs_view(prev).push(segment)[j] by {
                        assert(strs_view(out@)[j] == out@[j]@);
                        if j < prev.len() {
                            assert(out@[j] == prev[j]);
                            assert(strs_view(prev)[j] == prev[j]@);
                        }
                    }
                }
                assert(split_dots(s@.take(i + 1)) =~= strs_view(out@).push(
                    s@.subrange(i + 1, i + 1),
                )) by {
                    assert(split_dots(s@.take(i + 1)) == split_dots(prefix).push(
                        Seq::<char>::empty(),
                    ));
                    assert(s@.subrange(i + 1, i + 1) =~= Seq::<char>::empty());
                }
            }
            start = i + 1;
        } else {
            proof {
                let whole = strs_view(out@).push(segment);
                assert(split_dots(s@.take(i + 1)) == whole.update(
                    whole.len() - 1,
                    whole.last().push(s@[i as int]),
                ));
                assert(whole.update(whole.len() - 1, whole.last().push(s@[i as int]))
                    =~= strs_view(out@).push(s@.subrange(start as int, i + 1))) by {
                    assert(segment.push(s@[i as int]) =~= s@.subrange(start as int, i + 1));
                }
            }
        }
        i = i + 1;
    }
    let piece = s.substring_char(start, len);
    let ghost prev = out@;
    out.push(piece.to_owned());
    proof {
        assert(s@.take(len as int) =~= s@);
        assert(strs_view(out@) =~= strs_view(prev).push(s@.subrange(start as int, len as int)))
            by {
            assert forall|j: int| 0 <= j < out@.len() implies strs_view(out@)[j] == strs_view(
                prev,
            ).push(s@.subrange(start as int, len as int))[j] by {
                assert(strs_view(out@)[j] == out@[j]@);
                if j < prev.len() {
                    assert(out@[j] == prev[j]);
                    assert(strs_view(prev)[j] == prev[j]@);
                }
            }
        }
    }
    out
}

/// What the semver crate's strict parser yields on a given string: absent
/// when the string is not a valid semantic version, else the three numbers
/// and the raw pre-release and build components.
pub uninterp spec fn semver_parse(s: Seq<char>) -> Option<(int, int, int, Seq<char>, Seq<char>)>;

/// Relies on semver::Version::parse: strict SemVer 2.0 parsing, a pure
/// function of the input string; on success the version's numbers and its
/// raw pre-release and build components are returned unchanged.
#[verifier::external_body]
fn semver_parse_raw(s: &str) -> (r: Option<(u64, u64, u64, String, String)>)
    ensures
        r matches Some(t) ==> semver_parse(s@) == Some(
            (t.0 as int, t.1 as int, t.2 as int, t.3@, t.4@),
        ),
        r is None <==> semver_parse(s@) is None,
{
    match semver::Version::parse(s) {
        Ok(v) => Some(
            (v.major, v.minor, v.patch, v.pre.as_str().to_string(), v.build.as_str().to_string()),
        ),
        Err(_) => None,
    }
}

/// The version value a string parses to, over the raw components the
/// parser reports.
pub open spec fn parsed_version_view(t: (int, int, int, Seq<char>, Seq<char>)) -> VersionView {
    VersionView { major: t.0, minor: t.1, patch: t.2, pre: idents_of(t.3), build: idents_of(t.4) }
}

/// Parse a string as a strict semantic version.
pub fn parse_version(s: &str) -> (r: Option<Version>)
    ensures
        r is Some <==> semver_parse(s@) is Some,
        r matches Some(v) ==> semver_parse(s@) matches Some(t) && v@ == parsed_version_view(t),
{
    match semver_parse_raw(s) {
        None => None,
        Some((major, minor, patch, pre_raw, build_raw)) => {
            let pre: Vec<String> = if pre_raw.as_str().unicode_len() == 0 {
                Vec::new()
            } else {
                split_dots_exec(pre_raw.as_str())
            };
            let build: Vec<String> = if build_raw.as_str().unicode_len() == 0 {
                Vec::new()
            } else {
                split_dots_exec(build_raw.as_str())
            };
            proof {
                assert(strs_view(Seq::<String>::empty()) =~= Seq::<Seq<char>>::empty());
            }
            Some(Version::new(major, minor, patch, pre, build))
        },
    }
}

} // verus!
