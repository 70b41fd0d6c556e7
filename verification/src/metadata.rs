//! The primary discovery strategy's record format: Cargo's ledger of
//! tracked installs holds one record per package, a quoted header of the
//! package's name, resolved version and source, bound to the list of
//! executables it installed. The reading of the ledger file is the
//! caller's part; one record line is parsed here.

use vstd::prelude::*;

use crate::package::{execs_view, PackageExecutable, PackageKey, PackageKeyView};
use crate::parse::{parse_version, parsed_version_view, semver_parse};
use crate::scrape::{next_token_start, run_end};

verus! {

/// The first position of `c` at or after `i`.
pub open spec fn find_char(s: Seq<char>, i: int, c: char) -> int
    decreases s.len() - i when 0 <= i <= s.len()
{
    if i >= s.len() {
        i
    } else if s[i] == c {
        i
    } else {
        find_char(s, i + 1, c)
    }
}

proof fn lemma_find_char_bounds(s: Seq<char>, i: int, c: char)
    requires
        0 <= i <= s.len(),
    ensures
        i <= find_char(s, i, c) <= s.len(),
    decreases s.len() - i,
{
    if i < s.len() && s[i] != c {
        lemma_find_char_bounds(s, i + 1, c);
    }
}

#[via_fn]
proof fn quoted_items_decreases(s: Seq<char>, i: int) {
    lemma_find_char_bounds(s, i, '"');
    let j = find_char(s, i, '"');
    if j < s.len() {
        lemma_find_char_bounds(s, j + 1, '"');
    }
}

/// The contents of the double-quoted segments at or after `i`, in order.
pub open spec fn quoted_items(s: Seq<char>, i: int) -> Seq<Seq<char>>
    decreases s.len() - i when 0 <= i <= s.len() via quoted_items_decreases
{
    let j = find_char(s, i, '"');
    if j >= s.len() {
        Seq::<Seq<char>>::empty()
    } else {
        let k = find_char(s, j + 1, '"');
        if k >= s.len() {
            Seq::<Seq<char>>::empty()
        } else {
            seq![s.subrange(j + 1, k)] + quoted_items(s, k + 1)
        }
    }
}

/// The name and version tokens of a record line: the line must open with
/// a quote, and the quoted header holds the name and the version as its
/// first two whitespace-delimited tokens.
pub open spec fn record_fields(line: Seq<char>) -> Option<(Seq<char>, Seq<char>)> {
    if line.len() == 0 || line[0] != '"' {
        None
    } else {
        let q = find_char(line, 1, '"');
        if q >= line.len() {
            None
        } else {
            let rec = line.subrange(1, q);
            let j1 = next_token_start(rec, 0);
            if j1 >= rec.len() {
                None
            } else {
                let k1 = run_end(rec, j1 + 1);
                let j2 = next_token_start(rec, k1);
                if j2 >= rec.len() {
                    None
                } else {
                    Some((rec.subrange(j1, k1), rec.subrange(j2, run_end(rec, j2 + 1))))
                }
            }
        }
    }
}

/// The package key a record line declares: its name token with its
/// version token strictly parsed.
pub open spec fn record_key_of(line: Seq<char>) -> Option<PackageKeyView> {
    match record_fields(line) {
        None => None,
        Some(fields) => match semver_parse(fields.1) {
            None => None,
            Some(t) => Some(PackageKeyView { name: fields.0, version: parsed_version_view(t) }),
        },
    }
}

/// The executables a record line declares: the quoted segments after the
/// header.
pub open spec fn record_bins_of(line: Seq<char>) -> Seq<Seq<char>> {
    if line.len() == 0 || line[0] != '"' {
        Seq::<Seq<char>>::empty()
    } else {
        quoted_items(line, find_char(line, 1, '"') + 1)
    }
}

/// The first position of `c` at or after `from`.
fn find_char_exec(s: &str, from: usize, c: char) -> (r: usize)
    requires
        from <= s@.len(),
    ensures
        r == find_char(s@, from as int, c),
        from <= r <= s@.len(),
        r < s@.len() ==> s@[r as int] == c,
{
    let len = s.unicode_len();
    let mut i: usize = from;
    while i < len && (s.get_char(i) as u32) != (c as u32)
        invariant
            from <= i <= len,
            len == s@.len(),
            find_char(s@, from as int, c) == find_char(s@, i as int, c),
        decreases len - i,
    {
        i = i + 1;
    }
    i
}

/// The structured-metadata discovery strategy: Cargo's ledger of tracked
/// installs, read record by record. Faster and authoritative; the
/// banner-scraping fallback stands in only when this ledger cannot be
/// read.
pub struct CargoMetadataScraper;

impl CargoMetadataScraper {
    /// Parse one ledger record: the quoted header's first two tokens are
    /// the package's name and its resolved version, and the quoted
    /// segments after the header are its executables. A line that does
    /// not open with a quote — a section header, a blank — is no record.
    pub fn parse_record(line: &str) -> (r: Option<(PackageKey, Vec<PackageExecutable>)>)
        ensures
            r is Some <==> record_key_of(line@) is Some,
            r matches Some(p) ==> record_key_of(line@) matches Some(kv) && p.0@ == kv
                && execs_view(p.1@) == record_bins_of(line@),
    {
        let len = s_len(line);
        if len == 0 {
            return None;
        }
        if (line.get_char(0) as u32) != ('"' as u32) {
            return None;
        }
        let q = find_char_exec(line, 1, '"');
        if q >= len {
            proof {
                assert(record_fields(line@) is None);
            }
            return None;
        }
        let rec = line.substring_char(1, q);
        proof {
            assert(rec@ == line@.subrange(1, q as int));
        }
        let j1 = crate::scrape::token_start_exec(rec, 0);
        if j1 >= rec.unicode_len() {
            proof {
                assert(record_fields(line@) is None);
            }
            return None;
        }
        let k1 = crate::scrape::token_end_exec(rec, j1 + 1);
        let j2 = crate::scrape::token_start_exec(rec, k1);
        if j2 >= rec.unicode_len() {
            proof {
                assert(record_fields(line@) is None);
            }
            return None;
        }
        let k2 = crate::scrape::token_end_exec(rec, j2 + 1);
        let name = rec.substring_char(j1, k1);
        let vtok = rec.substring_char(j2, k2);
        proof {
            assert(record_fields(line@) == Some(
                (rec@.subrange(j1 as int, k1 as int), rec@.subrange(j2 as int, k2 as int)),
            ));
            assert(name@ == rec@.subrange(j1 as int, k1 as int));
            assert(vtok@ == rec@.subrange(j2 as int, k2 as int));
        }
        let version = match parse_version(vtok) {
            Some(v) => v,
            None => {
                return None;
            },
        };
        let key = PackageKey::new(name.to_owned(), version);
        let ghost bins_spec = record_bins_of(line@);
        let mut bins: Vec<PackageExecutable> = Vec::new();
        let mut i: usize = q + 1;
        proof {
            assert(execs_view(bins@) =~= Seq::<Seq<char>>::empty());
            assert(bins_spec == quoted_items(line@, i as int));
            assert(execs_view(bins@) + quoted_items(line@, i as int) =~= bins_spec);
        }
        loop
            invariant
                0 <= i <= len,
                len == line@.len(),
                execs_view(bins@) + quoted_items(line@, i as int) == bins_spec,
            ensures
                execs_view(bins@) == bins_spec,
            decreases len - i,
        {
            let j = find_char_exec(line, i, '"');
            if j >= len {
                proof {
                    assert(quoted_items(line@, i as int) =~= Seq::<Seq<char>>::empty());
                    assert(execs_view(bins@) =~= bins_spec);
                }
                break;
            }
            let k = find_char_exec(line, j + 1, '"');
            if k >= len {
                proof {
                    assert(quoted_items(line@, i as int) =~= Seq::<Seq<char>>::empty());
                    assert(execs_view(bins@) =~= bins_spec);
                }
                break;
            }
            let item = line.substring_char(j + 1, k);
            let ghost prev = bins@;
            bins.push(PackageExecutable::new(item.to_owned()));
            proof {
                assert(execs_view(bins@) =~= execs_view(prev).push(item@)) by {
                    assert forall|t: int| 0 <= t < bins@.len() implies execs_view(bins@)[t]
                        == execs_view(prev).push(item@)[t] by {
                        assert(execs_view(bins@)[t] == bins@[t]@);
                        if t < prev.len() {
                            assert(execs_view(prev)[t] == prev[t]@);
                        }
                    }
                }
                assert(quoted_items(line@, i as int) == seq![line@.subrange(j + 1, k as int)]
                    + quoted_items(line@, k + 1));
                assert(execs_view(bins@) + quoted_items(line@, k + 1) =~= bins_spec);
            }
            i = k + 1;
        }
        Some((key, bins))
    }
}

/// The character count of a string.
fn s_len(s: &str) -> (r: usize)
    ensures
        r == s@.len(),
{
    s.unicode_len()
}

} // verus!
