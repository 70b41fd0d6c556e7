//! Rendering of versions and package listings as text: the decimal
//! version string, and the long and short inventory formats. The lines
//! are computed here; writing them to a terminal is the caller's part.

use vstd::prelude::*;
use vstd::string::StringExecFns;

use crate::tree::{PackageFormatting, PackageTree};
use crate::version::{strs_view, Version, VersionView};
use crate::package::PackageView;

verus! {

/// The character of one decimal digit.
pub open spec fn digit_char(d: int) -> char {
    if d == 0 {
        '0'
    } else if d == 1 {
        '1'
    } else if d == 2 {
        '2'
    } else if d == 3 {
        '3'
    } else if d == 4 {
        '4'
    } else if d == 5 {
        '5'
    } else if d == 6 {
        '6'
    } else if d == 7 {
        '7'
    } else if d == 8 {
        '8'
    } else {
        '9'
    }
}

/// The decimal digits of a number, most significant first.
pub open spec fn dec_chars(n: int) -> Seq<char>
    decreases n when n >= 0
{
    if n < 10 {
        seq![digit_char(n)]
    } else {
        dec_chars(n / 10).push(digit_char(n % 10))
    }
}

/// Relies on u64's Display implementation through ToString: the decimal
/// digits of the number.
#[verifier::external_body]
fn u64_to_string(n: u64) -> (r: String)
    ensures
        r@ == dec_chars(n as int),
{
    n.to_string()
}

/// Identifiers joined by a separator.
pub open spec fn joined_with(ids: Seq<Seq<char>>, sep: Seq<char>) -> Seq<char>
    decreases ids.len(),
{
    if ids.len() == 0 {
        Seq::<char>::empty()
    } else if ids.len() == 1 {
        ids[0]
    } else {
        joined_with(ids.drop_last(), sep) + sep + ids.last()
    }
}

/// Join strings with a separator.
pub fn join_strings(ids: &Vec<String>, sep: &str) -> (r: String)
    ensures
        r@ == joined_with(strs_view(ids@), sep@),
{
    let ghost all = strs_view(ids@);
    let n = ids.len();
    let mut acc = String::new();
    let mut i: usize = 0;
    proof {
        assert(all.take(0) =~= Seq::<Seq<char>>::empty());
        assert(acc@ =~= joined_with(all.take(0), sep@));
    }
    while i < n
        invariant
            0 <= i <= n,
            n == ids@.len(),
            all == strs_view(ids@),
            acc@ == joined_with(all.take(i as int), sep@),
        decreases n - i,
    {
        proof {
            assert(all[i as int] == ids@[i as int]@);
            assert(all.take(i + 1).drop_last() =~= all.take(i as int));
            assert(all.take(i + 1).last() == all[i as int]);
        }
        if i > 0 {
            acc.append(sep);
        }
        acc.append(ids[i].as_str());
        proof {
            if i == 0 {
                assert(acc@ =~= joined_with(all.take(1), sep@));
            } else {
                assert(acc@ =~= joined_with(all.take(i + 1), sep@));
            }
        }
        i = i + 1;
    }
    proof {
        assert(all.take(n as int) =~= all);
    }
    acc
}

/// The display text of a version: the numeric core dotted, the
/// pre-release after a hyphen, the build metadata after a plus.
pub open spec fn version_chars(v: VersionView) -> Seq<char> {
    dec_chars(v.major) + seq!['.'] + dec_chars(v.minor) + seq!['.'] + dec_chars(v.patch) + (
    if v.pre.len() > 0 {
        seq!['-'] + joined_with(v.pre, seq!['.'])
    } else {
        Seq::<char>::empty()
    }) + (if v.build.len() > 0 {
        seq!['+'] + joined_with(v.build, seq!['.'])
    } else {
        Seq::<char>::empty()
    })
}

/// Render a version as text.
pub fn version_string(v: &Version) -> (r: String)
    ensures
        r@ == version_chars(v@),
{
    proof {
        reveal_strlit(".");
        reveal_strlit("-");
        reveal_strlit("+");
        assert("."@ =~= seq!['.']);
        assert("-"@ =~= seq!['-']);
        assert("+"@ =~= seq!['+']);
    }
    let mut acc = u64_to_string(v.major);
    acc.append(".");
    let minor = u64_to_string(v.minor);
    acc.append(minor.as_str());
    acc.append(".");
    let patch = u64_to_string(v.patch);
    acc.append(patch.as_str());
    let ghost base = dec_chars(v@.major) + seq!['.'] + dec_chars(v@.minor) + seq!['.']
        + dec_chars(v@.patch);
    proof {
        assert(acc@ =~= base);
        assert(v@.pre.len() == v.pre@.len());
        assert(v@.build.len() == v.build@.len());
    }
    let ghost with_pre = base + (if v@.pre.len() > 0 {
        seq!['-'] + joined_with(v@.pre, seq!['.'])
    } else {
        Seq::<char>::empty()
    });
    if v.pre.len() > 0 {
        acc.append("-");
        let pre = join_strings(&v.pre, ".");
        acc.append(pre.as_str());
        proof {
            assert(acc@ =~= with_pre);
        }
    } else {
        proof {
            assert(acc@ =~= with_pre);
        }
    }
    if v.build.len() > 0 {
        acc.append("+");
        let build = join_strings(&v.build, ".");
        acc.append(build.as_str());
        proof {
            assert(acc@ =~= with_pre + (seq!['+'] + joined_with(v@.build, seq!['.'])));
        }
    }
    proof {
        assert(acc@ =~= version_chars(v@));
    }
    acc
}

/// The heading line of a package: its name and version.
pub open spec fn heading_chars(p: PackageView) -> Seq<char> {
    p.name + seq![' ', '(', 'v'] + version_chars(p.version)
}

/// The lines of one package in the long format: the heading, then one
/// indented line per executable.
pub open spec fn long_lines_of(p: PackageView) -> Seq<Seq<char>> {
    seq![heading_chars(p) + seq![')']] + p.binaries.map_values(
        |b: Seq<char>| seq![' ', ' '] + b,
    )
}

/// The single line of one package in the short format: the heading, then
/// the executable names joined inline.
pub open spec fn short_line_of(p: PackageView) -> Seq<char> {
    heading_chars(p) + seq![')', ':', ' '] + joined_with(p.binaries, seq![',', ' '])
}

/// The listing of an inventory: per package its lines in the chosen
/// format, in inventory order.
pub open spec fn listing_of(pkgs: Seq<PackageView>, formatting: PackageFormatting) -> Seq<
    Seq<char>,
>
    decreases pkgs.len(),
{
    if pkgs.len() == 0 {
        Seq::<Seq<char>>::empty()
    } else {
        listing_of(pkgs.drop_last(), formatting) + (match formatting {
            PackageFormatting::Long => long_lines_of(pkgs.last()),
            PackageFormatting::Short => seq![short_line_of(pkgs.last())],
        })
    }
}

/// Append one string to the rendered lines.
fn push_line(lines: &mut Vec<String>, line: String)
    ensures
        strs_view(final(lines)@) == strs_view(old(lines)@).push(line@),
{
    let ghost prev = lines@;
    lines.push(line);
    proof {
        assert(strs_view(lines@) =~= strs_view(prev).push(line@)) by {
            assert forall|k: int| 0 <= k < lines@.len() implies strs_view(lines@)[k] == strs_view(
                prev,
            ).push(line@)[k] by {
                assert(strs_view(lines@)[k] == lines@[k]@);
                if k < prev.len() {
                    assert(strs_view(prev)[k] == prev[k]@);
                }
            }
        }
    }
}

/// Render one package's heading text.
fn heading_string(p: &crate::package::Package) -> (r: String)
    ensures
        r@ == heading_chars(p@),
{
    proof {
        reveal_strlit(" (v");
    }
    let mut acc = p.name().to_owned();
    acc.append(" (v");
    let vtext = version_string(p.version());
    acc.append(vtext.as_str());
    proof {
        assert(" (v"@ =~= seq![' ', '(', 'v']);
        assert(acc@ =~= heading_chars(p@));
    }
    acc
}

impl PackageTree {
    /// The lines of the inventory listing in the chosen format: in the
    /// long format each package's heading is followed by one indented
    /// line per executable; in the short format each package is one line
    /// with its executables joined inline.
    pub fn render(&self, formatting: PackageFormatting) -> (r: Vec<String>)
        ensures
            strs_view(r@) == listing_of(self@, formatting),
    {
        proof {
            reveal_strlit(")");
            reveal_strlit("  ");
            reveal_strlit("): ");
            reveal_strlit(", ");
        }
        let pkgs = self.packages();
        let n = pkgs.len();
        let mut lines: Vec<String> = Vec::new();
        let mut i: usize = 0;
        proof {
            assert(self@.take(0) =~= Seq::<PackageView>::empty());
            assert(strs_view(lines@) =~= listing_of(self@.take(0), formatting));
        }
        while i < n
            invariant
                0 <= i <= n,
                n == pkgs@.len(),
                crate::tree::pkgs_view(pkgs@) == self@,
                strs_view(lines@) == listing_of(self@.take(i as int), formatting),
            decreases n - i,
        {
            let package = &pkgs[i];
            proof {
                assert(crate::tree::pkgs_view(pkgs@)[i as int] == pkgs@[i as int]@);
                assert(self@.take(i + 1).drop_last() =~= self@.take(i as int));
                assert(self@.take(i + 1).last() == self@[i as int]);
            }
            match formatting {
                PackageFormatting::Long => {
                    let mut heading = heading_string(package);
                    heading.append(")");
                    proof {
                        reveal_strlit(")");
                        assert(")"@ =~= seq![')']);
                        assert(heading@ =~= long_lines_of(package@)[0]);
                    }
                    push_line(&mut lines, heading);
                    let bins = package.binaries();
                    let m = bins.len();
                    let mut b: usize = 0;
                    proof {
                        assert(long_lines_of(package@).skip(1) =~= package@.binaries.map_values(
                            |bb: Seq<char>| seq![' ', ' '] + bb,
                        ));
                        assert(strs_view(lines@) =~= listing_of(self@.take(i as int), formatting)
                            + long_lines_of(package@).take(1));
                    }
                    while b < m
                        invariant
                            0 <= b <= m,
                            m == bins@.len(),
                            crate::package::execs_view(bins@) == package@.binaries,
                            package@ == self@[i as int],
                            0 <= i < self@.len(),
                            strs_view(lines@) == listing_of(self@.take(i as int), formatting)
                                + long_lines_of(package@).take(b + 1),
                        decreases m - b,
                    {
                        proof {
                            reveal_strlit("  ");
                            assert(crate::package::execs_view(bins@)[b as int]
                                == bins@[b as int]@);
                        }
                        let mut line = String::new();
                        line.append("  ");
                        line.append(bins[b].name());
                        proof {
                            assert("  "@ =~= seq![' ', ' ']);
                            assert(long_lines_of(package@)[b + 1] == seq![' ', ' ']
                                + package@.binaries[b as int]);
                            assert(line@ =~= long_lines_of(package@)[b + 1]);
                        }
                        push_line(&mut lines, line);
                        proof {
                            assert(strs_view(lines@) =~= listing_of(
                                self@.take(i as int),
                                formatting,
                            ) + long_lines_of(package@).take(b + 2));
                        }
                        b = b + 1;
                    }
                    proof {
                        assert(long_lines_of(package@).take(m + 1) =~= long_lines_of(package@));
                        assert(strs_view(lines@) =~= listing_of(self@.take(i + 1), formatting));
                    }
                },
                PackageFormatting::Short => {
                    proof {
                        reveal_strlit("): ");
                        reveal_strlit(", ");
                    }
                    let mut line = heading_string(package);
                    line.append("): ");
                    let bins = package.binaries();
                    let mut names: Vec<String> = Vec::new();
                    let m = bins.len();
                    let mut b: usize = 0;
                    proof {
                        assert(strs_view(names@) =~= package@.binaries.take(0));
                    }
                    while b < m
                        invariant
                            0 <= b <= m,
                            m == bins@.len(),
                            crate::package::execs_view(bins@) == package@.binaries,
                            strs_view(names@) == package@.binaries.take(b as int),
                        decreases m - b,
                    {
                        proof {
                            assert(crate::package::execs_view(bins@)[b as int]
                                == bins@[b as int]@);
                        }
                        push_string(&mut names, bins[b].name().to_owned());
                        proof {
                            assert(strs_view(names@) =~= package@.binaries.take(b + 1));
                        }
                        b = b + 1;
                    }
                    proof {
                        assert(package@.binaries.take(m as int) =~= package@.binaries);
                    }
                    let joined = join_strings(&names, ", ");
                    line.append(joined.as_str());
                    proof {
                        assert("): "@ =~= seq![')', ':', ' ']);
                        assert(", "@ =~= seq![',', ' ']);
                        assert(line@ =~= short_line_of(package@));
                    }
                    push_line(&mut lines, line);
                    proof {
                        assert(strs_view(lines@) =~= listing_of(self@.take(i + 1), formatting));
                    }
                },
            }
            i = i + 1;
        }
        proof {
            assert(self@.take(n as int) =~= self@);
        }
        lines
    }
}

/// Append one name to a list of strings.
fn push_string(names: &mut Vec<String>, name: String)
    ensures
        strs_view(final(names)@) == strs_view(old(names)@).push(name@),
{
    let ghost prev = names@;
    names.push(name);
    proof {
        assert(strs_view(names@) =~= strs_view(prev).push(name@)) by {
            assert forall|k: int| 0 <= k < names@.len() implies strs_view(names@)[k] == strs_view(
                prev,
            ).push(name@)[k] by {
                assert(strs_view(names@)[k] == names@[k]@);
                if k < prev.len() {
                    assert(strs_view(prev)[k] == prev[k]@);
                }
            }
        }
    }
}

} // verus!
