//! The package inventory: the immutable, sorted snapshot of locally
//! discovered packages, built once per invocation from the merged
//! discovery map, with lookup by name.

use vstd::prelude::*;

use crate::discovery::{DiscoveryEntryView, DiscoveryMap};
use crate::package::{
    lemma_package_cmp_equal, lemma_package_cmp_flip, lemma_package_cmp_trans, package_cmp_spec,
    package_le_spec, Package, PackageView,
};

verus! {

/// How a package listing is rendered: one line per executable, or one
/// compact line per package.
#[derive(Clone, Copy, Debug)]
pub enum PackageFormatting {
    Long,
    Short,
}

/// The views of a sequence of packages.
pub open spec fn pkgs_view(s: Seq<Package>) -> Seq<PackageView> {
    s.map_values(|p: Package| p@)
}

/// A sequence of package values in non-decreasing package order.
pub open spec fn sorted_views(s: Seq<PackageView>) -> bool {
    forall|i: int, j: int| 0 <= i < j < s.len() ==> package_le_spec(s[i], s[j])
}

/// `package_le_spec` as a function value, shared by every use site.
pub open spec fn package_le_fn() -> spec_fn(PackageView, PackageView) -> bool {
    |a: PackageView, b: PackageView| package_le_spec(a, b)
}

/// The package order is a total order in the sense of `vstd::relations`.
pub proof fn lemma_package_le_total_ordering()
    ensures
        vstd::relations::total_ordering(package_le_fn()),
{
    let leq = package_le_fn();
    assert forall|a: PackageView| #[trigger] leq(a, a) by {
        lemma_package_cmp_equal(a, a);
    }
    assert forall|a: PackageView, b: PackageView|
        #[trigger] leq(a, b) && #[trigger] leq(b, a) implies a == b by {
        lemma_package_cmp_equal(a, b);
        lemma_package_cmp_flip(a, b);
    }
    assert forall|a: PackageView, b: PackageView, c: PackageView|
        #[trigger] leq(a, b) && #[trigger] leq(b, c) implies leq(a, c) by {
        lemma_package_cmp_equal(a, b);
        lemma_package_cmp_equal(b, c);
        lemma_package_cmp_flip(a, b);
        lemma_package_cmp_flip(b, c);
        lemma_package_cmp_flip(a, c);
        if package_cmp_spec(a, b) is Less && package_cmp_spec(b, c) is Less {
            lemma_package_cmp_trans(a, b, c);
        }
    }
    assert forall|a: PackageView, b: PackageView| #[trigger] leq(a, b) || #[trigger] leq(
        b,
        a,
    ) by {
        lemma_package_cmp_flip(a, b);
    }
}

/// Sorting is deterministic and idempotent: two sorted sequences holding
/// the same package values are the same sequence, so sorting a sequence
/// that is already sorted yields that sequence itself.
pub proof fn lemma_sorted_permutation_unique(x: Seq<PackageView>, y: Seq<PackageView>)
    requires
        sorted_views(x),
        sorted_views(y),
        x.to_multiset() == y.to_multiset(),
    ensures
        x == y,
{
    lemma_package_le_total_ordering();
    let leq = package_le_fn();
    assert(vstd::relations::sorted_by(x, leq)) by {
        assert forall|i: int, j: int| 0 <= i < j < x.len() implies #[trigger] leq(
            x[i],
            x[j],
        ) by {
            assert(package_le_spec(x[i], x[j]));
        }
    }
    assert(vstd::relations::sorted_by(y, leq)) by {
        assert forall|i: int, j: int| 0 <= i < j < y.len() implies #[trigger] leq(
            y[i],
            y[j],
        ) by {
            assert(package_le_spec(y[i], y[j]));
        }
    }
    vstd::seq_lib::lemma_sorted_unique(x, y, leq);
}

/// Insert one package into a sorted vector, keeping it sorted.
fn insert_sorted(out: &mut Vec<Package>, p: Package)
    requires
        sorted_views(pkgs_view(old(out)@)),
    ensures
        sorted_views(pkgs_view(final(out)@)),
        pkgs_view(final(out)@).to_multiset() == pkgs_view(old(out)@).to_multiset().insert(p@),
{
    broadcast use vstd::seq_lib::group_to_multiset_ensures;

    let ghost vs0 = pkgs_view(out@);
    let n = out.len();
    let mut j: usize = 0;
    while j < n && out[j].le(&p)
        invariant
            0 <= j <= n,
            n == out@.len(),
            pkgs_view(out@) == vs0,
            forall|k: int| 0 <= k < j ==> package_le_spec(vs0[k], p@),
        decreases n - j,
    {
        proof {
            assert(vs0[j as int] == out@[j as int]@);
        }
        j = j + 1;
    }
    proof {
        if j < n {
            assert(vs0[j as int] == out@[j as int]@);
            assert(!package_le_spec(vs0[j as int], p@));
            lemma_package_cmp_flip(p@, vs0[j as int]);
            assert(package_cmp_spec(p@, vs0[j as int]) is Less);
        }
    }
    let ghost inserted = vs0.insert(j as int, p@);
    out.insert(j, p);
    proof {
        assert(pkgs_view(out@) =~= inserted) by {
            assert forall|k: int| 0 <= k < inserted.len() implies pkgs_view(out@)[k]
                == inserted[k] by {
                assert(pkgs_view(out@)[k] == out@[k]@);
                if k < j {
                    assert(vs0[k] == old(out)@[k]@);
                } else if k > j {
                    assert(vs0[k - 1] == old(out)@[k - 1]@);
                }
            }
        }
        assert(sorted_views(inserted)) by {
            assert forall|i1: int, i2: int|
                0 <= i1 < i2 < inserted.len() implies package_le_spec(
                inserted[i1],
                inserted[i2],
            ) by {
                let jj = j as int;
                if i1 < jj && i2 == jj {
                    assert(package_le_spec(vs0[i1], p@));
                } else if i1 == jj && i2 > jj {
                    assert(inserted[i2] == vs0[i2 - 1]);
                    assert(jj < vs0.len());
                    assert(package_cmp_spec(p@, vs0[jj]) is Less);
                    lemma_package_cmp_equal(vs0[jj], vs0[i2 - 1]);
                    if i2 - 1 > jj {
                        assert(package_le_spec(vs0[jj], vs0[i2 - 1]));
                        if package_cmp_spec(vs0[jj], vs0[i2 - 1]) is Less {
                            lemma_package_cmp_trans(p@, vs0[jj], vs0[i2 - 1]);
                        }
                    }
                    lemma_package_cmp_flip(p@, vs0[i2 - 1]);
                } else if i1 < jj && i2 > jj {
                    assert(inserted[i1] == vs0[i1]);
                    assert(inserted[i2] == vs0[i2 - 1]);
                    if i1 < i2 - 1 {
                        assert(package_le_spec(vs0[i1], vs0[i2 - 1]));
                    } else {
                        lemma_package_cmp_equal(vs0[i1], vs0[i2 - 1]);
                    }
                } else if i1 < jj && i2 < jj {
                    assert(package_le_spec(vs0[i1], vs0[i2]));
                } else {
                    assert(inserted[i1] == vs0[i1 - 1]);
                    assert(inserted[i2] == vs0[i2 - 1]);
                    assert(package_le_spec(vs0[i1 - 1], vs0[i2 - 1]));
                }
            }
        }
        assert(pkgs_view(out@).to_multiset() =~= vs0.to_multiset().insert(p@));
    }
}

/// Sort packages into the package order.
fn sort_packages(input: Vec<Package>) -> (r: Vec<Package>)
    ensures
        sorted_views(pkgs_view(r@)),
        pkgs_view(r@).to_multiset() == pkgs_view(input@).to_multiset(),
{
    broadcast use vstd::seq_lib::group_to_multiset_ensures;

    let ghost in0 = pkgs_view(input@);
    let mut rest = input;
    let mut out: Vec<Package> = Vec::new();
    proof {
        assert(pkgs_view(Seq::<Package>::empty()) =~= Seq::<PackageView>::empty());
        assert(pkgs_view(out@).to_multiset().add(pkgs_view(rest@).to_multiset())
            =~= in0.to_multiset());
    }
    loop
        invariant
            sorted_views(pkgs_view(out@)),
            pkgs_view(out@).to_multiset().add(pkgs_view(rest@).to_multiset())
                == in0.to_multiset(),
        ensures
            sorted_views(pkgs_view(out@)),
            pkgs_view(out@).to_multiset().add(pkgs_view(rest@).to_multiset())
                == in0.to_multiset(),
            rest@.len() == 0,
        decreases rest@.len(),
    {
        let ghost pre_rest = rest@;
        let p = match rest.pop() {
            Some(p) => p,
            None => {
                break;
            },
        };
        proof {
            assert(pkgs_view(pre_rest) =~= pkgs_view(rest@).push(p@)) by {
                assert forall|k: int| 0 <= k < pre_rest.len() implies pkgs_view(pre_rest)[k]
                    == pkgs_view(rest@).push(p@)[k] by {
                    assert(pkgs_view(pre_rest)[k] == pre_rest[k]@);
                    if k < pre_rest.len() - 1 {
                        assert(pkgs_view(rest@)[k] == rest@[k]@);
                    }
                }
            }
            vstd::seq_lib::to_multiset_build(pkgs_view(rest@), p@);
            assert(pkgs_view(pre_rest).to_multiset() =~= pkgs_view(rest@).to_multiset().insert(
                p@,
            ));
        }
        let ghost out_ms = pkgs_view(out@).to_multiset();
        insert_sorted(&mut out, p);
        proof {
            assert(pkgs_view(out@).to_multiset().add(pkgs_view(rest@).to_multiset()) =~= out_ms
                .insert(p@).add(pkgs_view(rest@).to_multiset()));
            assert(out_ms.insert(p@).add(pkgs_view(rest@).to_multiset()) =~= out_ms.add(
                pkgs_view(rest@).to_multiset().insert(p@),
            ));
        }
    }
    proof {
        assert(pkgs_view(rest@) =~= Seq::<PackageView>::empty());
        assert forall|pv: PackageView| pkgs_view(rest@).to_multiset().count(pv) == 0 by {
            assert(!pkgs_view(rest@).contains(pv));
        }
        assert(pkgs_view(out@).to_multiset() =~= in0.to_multiset());
    }
    out
}

/// The package value a discovery entry stands for.
pub open spec fn package_of_entry(e: DiscoveryEntryView) -> PackageView {
    PackageView { name: e.key.name, version: e.key.version, binaries: e.execs }
}

/// The package values of a sequence of discovery entries.
pub open spec fn packages_of_entries(vs: Seq<DiscoveryEntryView>) -> Seq<PackageView> {
    vs.map_values(|e: DiscoveryEntryView| package_of_entry(e))
}

/// The first package carrying a name, scanning front to back.
pub open spec fn find_by_name(s: Seq<PackageView>, name: Seq<char>) -> Option<PackageView>
    decreases s.len(),
{
    if s.len() == 0 {
        None
    } else if s[0].name == name {
        Some(s[0])
    } else {
        find_by_name(s.drop_first(), name)
    }
}

/// The sorted, immutable snapshot of locally discovered packages.
pub struct PackageTree {
    packages: Vec<Package>,
}

impl View for PackageTree {
    type V = Seq<PackageView>;

    closed spec fn view(&self) -> Seq<PackageView> {
        pkgs_view(self.packages@)
    }
}

impl PackageTree {
    /// The inventory is sorted under the package order.
    pub open spec fn wf(&self) -> bool {
        sorted_views(self@)
    }

    /// Build the inventory from a merged discovery map: one package per
    /// entry, sorted under the package order.
    pub fn build(discovered: DiscoveryMap) -> (r: PackageTree)
        ensures
            r.wf(),
            r@.to_multiset() == packages_of_entries(discovered@).to_multiset(),
    {
        broadcast use vstd::seq_lib::group_to_multiset_ensures;

        let ghost all0 = discovered@;
        let mut entries = discovered.into_entries();
        let mut pkgs: Vec<Package> = Vec::new();
        proof {
            assert(pkgs_view(Seq::<Package>::empty()) =~= Seq::<PackageView>::empty());
            assert(pkgs_view(pkgs@).to_multiset().add(
                packages_of_entries(entry_views_of(entries@)).to_multiset(),
            ) =~= packages_of_entries(all0).to_multiset());
        }
        loop
            invariant
                pkgs_view(pkgs@).to_multiset().add(
                    packages_of_entries(entry_views_of(entries@)).to_multiset(),
                ) == packages_of_entries(all0).to_multiset(),
            ensures
                pkgs_view(pkgs@).to_multiset().add(
                    packages_of_entries(entry_views_of(entries@)).to_multiset(),
                ) == packages_of_entries(all0).to_multiset(),
                entries@.len() == 0,
            decreases entries@.len(),
        {
            let ghost pre_entries = entry_views_of(entries@);
            let entry = match entries.pop() {
                Some(e) => e,
                None => {
                    break;
                },
            };
            let ghost popped = entry@;
            proof {
                assert(pre_entries =~= entry_views_of(entries@).push(popped)) by {
                    assert forall|k: int| 0 <= k < pre_entries.len() implies pre_entries[k]
                        == entry_views_of(entries@).push(popped)[k] by {
                        if k < pre_entries.len() - 1 {
                            assert(entry_views_of(entries@)[k] == entries@[k]@);
                        }
                    }
                }
                assert(packages_of_entries(pre_entries) =~= packages_of_entries(
                    entry_views_of(entries@),
                ).push(package_of_entry(popped))) by {
                    assert forall|k: int| 0 <= k < pre_entries.len() implies packages_of_entries(
                        pre_entries,
                    )[k] == packages_of_entries(entry_views_of(entries@)).push(
                        package_of_entry(popped),
                    )[k] by {}
                }
            }
            let (key, execs) = entry.into_parts();
            let (name, version) = key.into_parts();
            let p = Package::new(name, version, execs);
            proof {
                assert(p@ == package_of_entry(popped));
            }
            let ghost pk_ms = pkgs_view(pkgs@).to_multiset();
            let ghost prev_pkgs = pkgs@;
            pkgs.push(p);
            proof {
                assert(pkgs_view(pkgs@) =~= pkgs_view(prev_pkgs).push(p@)) by {
                    assert forall|k: int| 0 <= k < pkgs@.len() implies pkgs_view(pkgs@)[k]
                        == pkgs_view(prev_pkgs).push(p@)[k] by {
                        assert(pkgs_view(pkgs@)[k] == pkgs@[k]@);
                        if k < pkgs@.len() - 1 {
                            assert(pkgs_view(prev_pkgs)[k] == prev_pkgs[k]@);
                        }
                    }
                }
                vstd::seq_lib::to_multiset_build(
                    packages_of_entries(entry_views_of(entries@)),
                    package_of_entry(popped),
                );
                assert(packages_of_entries(pre_entries).to_multiset() =~= packages_of_entries(
                    entry_views_of(entries@),
                ).to_multiset().insert(package_of_entry(popped)));
                vstd::seq_lib::to_multiset_build(pkgs_view(prev_pkgs), p@);
                assert(pkgs_view(pkgs@).to_multiset() =~= pk_ms.insert(p@));
                assert(pk_ms.insert(p@).add(
                    packages_of_entries(entry_views_of(entries@)).to_multiset(),
                ) =~= pk_ms.add(
                    packages_of_entries(entry_views_of(entries@)).to_multiset().insert(p@),
                ));
            }
        }
        proof {
            assert(entry_views_of(entries@) =~= Seq::<DiscoveryEntryView>::empty());
            assert(packages_of_entries(entry_views_of(entries@)) =~= Seq::<
                PackageView,
            >::empty());
            assert forall|pv: PackageView|
                packages_of_entries(entry_views_of(entries@)).to_multiset().count(pv) == 0 by {
                assert(!packages_of_entries(entry_views_of(entries@)).contains(pv));
            }
            assert(pkgs_view(pkgs@).to_multiset() =~= packages_of_entries(all0).to_multiset());
        }
        let sorted = sort_packages(pkgs);
        PackageTree { packages: sorted }
    }

    /// The packages of the inventory, in sorted order.
    pub fn packages(&self) -> (r: &Vec<Package>)
        ensures
            pkgs_view(r@) == self@,
    {
        &self.packages
    }

    /// The number of packages in the inventory.
    pub fn len(&self) -> (r: usize)
        ensures
            r == self@.len(),
    {
        self.packages.len()
    }

    /// Look a package up by name: the first entry carrying the name, or
    /// nothing when the name is not installed. Discovery keys on name
    /// and version together, so two installed versions of one name can
    /// both be present; the first entry under the sorted order is then
    /// the lowest installed version.
    pub fn get(&self, package_name: &str) -> (r: Option<&Package>)
        ensures
            r matches Some(p) ==> find_by_name(self@, package_name@) == Some(p@),
            r is None ==> find_by_name(self@, package_name@) is None,
    {
        let n = self.packages.len();
        let mut i: usize = 0;
        proof {
            assert(self@.skip(0) =~= self@);
        }
        while i < n
            invariant
                0 <= i <= n,
                n == self.packages@.len(),
                find_by_name(self@, package_name@) == find_by_name(
                    self@.skip(i as int),
                    package_name@,
                ),
            decreases n - i,
        {
            proof {
                assert(self@.skip(i as int)[0] == self@[i as int]);
                assert(self@[i as int] == self.packages@[i as int]@);
            }
            if crate::order::str_eq(self.packages[i].name(), package_name) {
                return Some(&self.packages[i]);
            }
            proof {
                assert(self@.skip(i as int).drop_first() =~= self@.skip(i + 1));
            }
            i = i + 1;
        }
        proof {
            assert(self@.skip(i as int).len() == 0);
        }
        None
    }
}

/// The views of a sequence of discovery entries.
pub open spec fn entry_views_of(s: Seq<crate::discovery::DiscoveryEntry>) -> Seq<
    DiscoveryEntryView,
> {
    crate::discovery::entry_views(s)
}

} // verus!
