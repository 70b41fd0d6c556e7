//! The version-reconciliation engine: classify each installed package
//! against the registry's latest version, and compute the outdated subset
//! with its display padding. A package is up to date exactly when the
//! latest known remote version precedes or equals the local one, so a
//! stale or pre-release-only remote record never marks a newer local
//! install as outdated.

use vstd::prelude::*;

use crate::package::{package_le_spec, Package, PackageView};
use crate::registry::CratesRegistry;
use crate::tree::{find_by_name, PackageTree};
use crate::version::{version_le_spec, Version, VersionView};

verus! {

/// Whether a package's local version is current.
#[derive(Clone, Copy, Debug, PartialEq, Eq, Structural)]
pub enum PackageStatus {
    UpToDate,
    OutOfDate,
}

/// A package together with its reconciliation outcome; the latest remote
/// version is carried only when the package is out of date, as it is then
/// the target of an update.
pub struct PackageWithStatus {
    package: Package,
    status: PackageStatus,
    latest_version: Option<Version>,
}

/// Mathematical value of a `PackageWithStatus`.
pub struct PackageWithStatusView {
    pub package: PackageView,
    pub status: PackageStatus,
    pub latest_version: Option<VersionView>,
}

/// The version value an optional version holds.
pub open spec fn opt_version_view(o: Option<Version>) -> Option<VersionView> {
    match o {
        Some(v) => Some(v@),
        None => None,
    }
}

impl View for PackageWithStatus {
    type V = PackageWithStatusView;

    closed spec fn view(&self) -> PackageWithStatusView {
        PackageWithStatusView {
            package: self.package@,
            status: self.status,
            latest_version: opt_version_view(self.latest_version),
        }
    }
}

impl PackageWithStatus {
    /// Build a classified package.
    pub fn new(package: Package, status: PackageStatus, latest_version: Option<Version>) -> (r:
        Self)
        ensures
            r@.package == package@,
            r@.status == status,
            r@.latest_version == opt_version_view(latest_version),
    {
        PackageWithStatus { package, status, latest_version }
    }

    /// The classified package.
    pub fn package(&self) -> (r: &Package)
        ensures
            r@ == self@.package,
    {
        &self.package
    }

    /// Whether the package is out of date.
    pub fn is_out_of_date(&self) -> (r: bool)
        ensures
            r == (self@.status is OutOfDate),
    {
        match self.status {
            PackageStatus::OutOfDate => true,
            PackageStatus::UpToDate => false,
        }
    }

    /// The latest remote version, present exactly when out of date.
    pub fn latest_version(&self) -> (r: &Option<Version>)
        ensures
            opt_version_view(*r) == self@.latest_version,
    {
        &self.latest_version
    }
}

impl Clone for PackageWithStatus {
    /// The copy holds the same classified value.
    fn clone(&self) -> (r: Self)
        ensures
            r@ == self@,
    {
        let latest: Option<Version> = match &self.latest_version {
            Some(v) => Some(v.clone()),
            None => None,
        };
        PackageWithStatus {
            package: self.package.clone(),
            status: self.status,
            latest_version: latest,
        }
    }
}

/// The classification rule: up to date exactly when the remote latest
/// version precedes or equals the local one.
pub open spec fn classify_spec(latest: VersionView, local: VersionView) -> PackageStatus {
    if version_le_spec(latest, local) {
        PackageStatus::UpToDate
    } else {
        PackageStatus::OutOfDate
    }
}

/// Classify a local version against the registry's latest.
pub fn classify(latest: &Version, local: &Version) -> (r: PackageStatus)
    ensures
        r == classify_spec(latest@, local@),
        r is UpToDate <==> version_le_spec(latest@, local@),
{
    if latest.le(local) {
        PackageStatus::UpToDate
    } else {
        PackageStatus::OutOfDate
    }
}

/// What reconciliation yields for a package and a registry outcome: no
/// answer without a registry version; else the classified package, the
/// latest version carried exactly when out of date.
pub open spec fn check_result_spec(pkg: PackageView, lookup: Option<VersionView>) -> Option<
    PackageWithStatusView,
> {
    match lookup {
        None => None,
        Some(latest) => {
            if version_le_spec(latest, pkg.version) {
                Some(
                    PackageWithStatusView {
                        package: pkg,
                        status: PackageStatus::UpToDate,
                        latest_version: None,
                    },
                )
            } else {
                Some(
                    PackageWithStatusView {
                        package: pkg,
                        status: PackageStatus::OutOfDate,
                        latest_version: Some(latest),
                    },
                )
            }
        },
    }
}

/// The classified value an optional classified package holds.
pub open spec fn opt_pws_view(o: Option<PackageWithStatus>) -> Option<PackageWithStatusView> {
    match o {
        Some(p) => Some(p@),
        None => None,
    }
}

/// Classify a package against a registry outcome handed in as a value:
/// exact for every outcome, whatever the registry did.
pub fn classify_lookup(package: &Package, lookup: Option<Version>) -> (r: Option<
    PackageWithStatus,
>)
    ensures
        opt_pws_view(r) == check_result_spec(package@, opt_version_view(lookup)),
{
    match lookup {
        None => None,
        Some(latest) => {
            let status = classify(&latest, package.version());
            match status {
                PackageStatus::UpToDate => Some(
                    PackageWithStatus::new(package.clone(), PackageStatus::UpToDate, None),
                ),
                PackageStatus::OutOfDate => Some(
                    PackageWithStatus::new(
                        package.clone(),
                        PackageStatus::OutOfDate,
                        Some(latest),
                    ),
                ),
            }
        },
    }
}

/// The outcome of checking one package by name.
pub enum CheckOutcome {
    /// The name is not in the local inventory.
    NotInstalled,
    /// The name is installed, but the registry reported no version.
    NotAvailable,
    /// The name is installed and was classified.
    Checked(PackageWithStatus),
}

/// Mathematical value of a `CheckOutcome`.
pub enum CheckOutcomeView {
    NotInstalled,
    NotAvailable,
    Checked(PackageWithStatusView),
}

impl View for CheckOutcome {
    type V = CheckOutcomeView;

    closed spec fn view(&self) -> CheckOutcomeView {
        match self {
            CheckOutcome::NotInstalled => CheckOutcomeView::NotInstalled,
            CheckOutcome::NotAvailable => CheckOutcomeView::NotAvailable,
            CheckOutcome::Checked(p) => CheckOutcomeView::Checked(p@),
        }
    }
}

impl CheckOutcome {
    /// The classified package, when there is one.
    pub fn into_result(self) -> (r: Option<PackageWithStatus>)
        ensures
            self@ matches CheckOutcomeView::Checked(p) ==> opt_pws_view(r) == Some(p),
            !(self@ is Checked) ==> r is None,
    {
        match self {
            CheckOutcome::Checked(p) => Some(p),
            _ => None,
        }
    }
}

/// The consistency every classified entry keeps: the package order rule
/// tying status to the carried latest version.
pub open spec fn status_entry_consistent(p: PackageWithStatusView) -> bool {
    &&& (p.status is UpToDate <==> p.latest_version is None)
    &&& (p.latest_version matches Some(lv) ==> !version_le_spec(lv, p.package.version))
}

/// The views of a sequence of classified packages.
pub open spec fn pws_views(s: Seq<PackageWithStatus>) -> Seq<PackageWithStatusView> {
    s.map_values(|p: PackageWithStatus| p@)
}

/// Classified entries in non-decreasing package order, as a scan of the
/// sorted inventory produces them.
pub open spec fn statuses_ordered(s: Seq<PackageWithStatusView>) -> bool {
    forall|k1: int, k2: int|
        0 <= k1 < k2 < s.len() ==> package_le_spec(#[trigger] s[k1].package, #[trigger] s[k2].package)
}

/// `pos` places every entry at its own inventory position, in strictly
/// increasing order: each inventory package yields at most one entry.
pub open spec fn selection_at(
    entries: Seq<PackageWithStatusView>,
    inv: Seq<PackageView>,
    pos: Seq<int>,
) -> bool {
    &&& pos.len() == entries.len()
    &&& forall|k: int|
        0 <= k < pos.len() ==> 0 <= #[trigger] pos[k] < inv.len() && entries[k].package
            == inv[pos[k]]
    &&& forall|k1: int, k2: int| 0 <= k1 < k2 < pos.len() ==> pos[k1] < pos[k2]
}

/// The entries' packages form an order-preserving subsequence of the
/// inventory: distinct positions, in inventory order, so no inventory
/// package is reported twice.
pub open spec fn selection_of(entries: Seq<PackageWithStatusView>, inv: Seq<PackageView>) -> bool {
    exists|pos: Seq<int>| selection_at(entries, inv, pos)
}

/// In a strictly increasing position sequence, the position at `k` is at
/// least `k`.
proof fn lemma_increasing_pos_lower(pos: Seq<int>, k: int)
    requires
        forall|k1: int, k2: int| 0 <= k1 < k2 < pos.len() ==> pos[k1] < pos[k2],
        forall|j: int| 0 <= j < pos.len() ==> 0 <= #[trigger] pos[j],
        0 <= k < pos.len(),
    ensures
        pos[k] >= k,
    decreases k,
{
    if k > 0 {
        lemma_increasing_pos_lower(pos, k - 1);
    }
}

/// A selection never holds more entries than the inventory.
pub proof fn lemma_selection_len(entries: Seq<PackageWithStatusView>, inv: Seq<PackageView>)
    requires
        selection_of(entries, inv),
    ensures
        entries.len() <= inv.len(),
{
    let pos = choose|pos: Seq<int>| selection_at(entries, inv, pos);
    if entries.len() > 0 {
        assert forall|j: int| 0 <= j < pos.len() implies 0 <= #[trigger] pos[j] by {}
        lemma_increasing_pos_lower(pos, pos.len() - 1);
    }
}

/// A selection of a sorted inventory is ordered.
proof fn lemma_selection_ordered(
    entries: Seq<PackageWithStatusView>,
    inv: Seq<PackageView>,
    pos: Seq<int>,
)
    requires
        selection_at(entries, inv, pos),
        crate::tree::sorted_views(inv),
    ensures
        statuses_ordered(entries),
{
    assert forall|k1: int, k2: int|
        0 <= k1 < k2 < entries.len() implies package_le_spec(
        #[trigger] entries[k1].package,
        #[trigger] entries[k2].package,
    ) by {
        assert(entries[k1].package == inv[pos[k1]]);
        assert(entries[k2].package == inv[pos[k2]]);
        assert(pos[k1] < pos[k2]);
    }
}

/// The out-of-date entries of a status sequence, in order.
pub open spec fn outdated_of(s: Seq<PackageWithStatusView>) -> Seq<PackageWithStatusView>
    decreases s.len(),
{
    if s.len() == 0 {
        Seq::<PackageWithStatusView>::empty()
    } else {
        let rest = outdated_of(s.drop_last());
        if s.last().status is OutOfDate {
            rest.push(s.last())
        } else {
            rest
        }
    }
}

/// The longest package name among entries, in characters.
pub open spec fn max_name_len(s: Seq<PackageWithStatusView>) -> int
    decreases s.len(),
{
    if s.len() == 0 {
        0
    } else {
        let rest = max_name_len(s.drop_last());
        if s.last().package.name.len() > rest {
            s.last().package.name.len() as int
        } else {
            rest
        }
    }
}

/// The outdated subset of an inventory check, with the display padding
/// for aligned output.
pub struct CheckAllReport {
    outdated: Vec<PackageWithStatus>,
    padding: usize,
}

/// Mathematical value of a `CheckAllReport`.
pub struct CheckAllReportView {
    pub outdated: Seq<PackageWithStatusView>,
    pub padding: int,
}

impl View for CheckAllReport {
    type V = CheckAllReportView;

    closed spec fn view(&self) -> CheckAllReportView {
        CheckAllReportView { outdated: pws_views(self.outdated@), padding: self.padding as int }
    }
}

impl CheckAllReport {
    /// The outdated packages, in inventory order.
    pub fn outdated(&self) -> (r: &Vec<PackageWithStatus>)
        ensures
            pws_views(r@) == self@.outdated,
    {
        &self.outdated
    }

    /// The display padding: the longest outdated package name.
    pub fn padding(&self) -> (r: usize)
        ensures
            r == self@.padding,
    {
        self.padding
    }
}

/// The report an optional report holds.
pub open spec fn opt_report_view(o: Option<CheckAllReport>) -> Option<CheckAllReportView> {
    match o {
        Some(rep) => Some(rep@),
        None => None,
    }
}

/// Reduce a status list to its outdated subset: nothing when every entry
/// is current — callers distinguish "nothing to report" from an empty
/// list — else exactly the out-of-date entries in order, padded for
/// display by the longest name among them alone.
pub fn collect_outdated(statuses: Vec<PackageWithStatus>) -> (r: Option<CheckAllReport>)
    ensures
        r is None <==> outdated_of(pws_views(statuses@)).len() == 0,
        r matches Some(rep) ==> rep@.outdated == outdated_of(pws_views(statuses@))
            && rep@.padding == max_name_len(outdated_of(pws_views(statuses@))),
{
    let ghost all = pws_views(statuses@);
    let n = statuses.len();
    let mut outdated: Vec<PackageWithStatus> = Vec::new();
    let mut padding: usize = 0;
    let mut i: usize = 0;
    proof {
        assert(all.take(0) =~= Seq::<PackageWithStatusView>::empty());
        assert(pws_views(outdated@) =~= outdated_of(all.take(0)));
    }
    while i < n
        invariant
            0 <= i <= n,
            n == statuses@.len(),
            all == pws_views(statuses@),
            pws_views(outdated@) == outdated_of(all.take(i as int)),
            padding == max_name_len(outdated_of(all.take(i as int))),
        decreases n - i,
    {
        let ghost prefix = all.take(i as int);
        proof {
            assert(all.take(i + 1).drop_last() =~= prefix);
            assert(all.take(i + 1).last() == all[i as int]);
            assert(all[i as int] == statuses@[i as int]@);
        }
        if statuses[i].is_out_of_date() {
            let name_len = statuses[i].package().name().unicode_len();
            let ghost prev = outdated@;
            let entry = statuses[i].clone();
            outdated.push(entry);
            proof {
                assert(pws_views(outdated@) =~= pws_views(prev).push(all[i as int])) by {
                    assert forall|k: int| 0 <= k < outdated@.len() implies pws_views(
                        outdated@,
                    )[k] == pws_views(prev).push(all[i as int])[k] by {
                        assert(pws_views(outdated@)[k] == outdated@[k]@);
                        if k < prev.len() {
                            assert(pws_views(prev)[k] == prev[k]@);
                        }
                    }
                }
                assert(outdated_of(all.take(i + 1)).drop_last() =~= outdated_of(prefix));
            }
            if name_len > padding {
                padding = name_len;
            }
            proof {
                assert(outdated_of(all.take(i + 1)) == outdated_of(prefix).push(all[i as int]));
                assert(max_name_len(outdated_of(all.take(i + 1))) == padding);
            }
        } else {
            proof {
                assert(outdated_of(all.take(i + 1)) == outdated_of(prefix));
            }
        }
        i = i + 1;
    }
    proof {
        assert(all.take(n as int) =~= all);
    }
    if outdated.len() == 0 {
        proof {
            assert(pws_views(outdated@).len() == outdated@.len());
        }
        None
    } else {
        proof {
            assert(pws_views(outdated@).len() == outdated@.len());
        }
        Some(CheckAllReport { outdated, padding })
    }
}

/// The reconciliation engine: the inventory on one side, the registry on
/// the other.
pub struct PackageUpdater<'a> {
    pub registry: &'a CratesRegistry,
    pub packages: &'a PackageTree,
}

impl<'a> PackageUpdater<'a> {
    /// Build an engine over a registry and an inventory.
    pub fn new(registry: &'a CratesRegistry, packages: &'a PackageTree) -> (r: Self)
        ensures
            r.registry == registry,
            r.packages == packages,
    {
        PackageUpdater { registry, packages }
    }

    /// The inventory the engine reads.
    pub open spec fn inventory(&self) -> Seq<PackageView> {
        self.packages@
    }

    /// Check one package by name: not installed when the inventory lacks
    /// the name; not available when the registry reports no version for
    /// it; else the classification of the installed version against the
    /// registry's latest.
    pub fn check_package(&self, package_name: &str) -> (r: CheckOutcome)
        ensures
            r@ is NotInstalled <==> find_by_name(self.inventory(), package_name@) is None,
            r@ is NotAvailable ==> find_by_name(self.inventory(), package_name@) is Some,
            r@ matches CheckOutcomeView::Checked(p) ==> find_by_name(
                self.inventory(),
                package_name@,
            ) matches Some(pv) && p.package == pv && status_entry_consistent(p),
    {
        let local = match self.packages.get(package_name) {
            Some(p) => p,
            None => {
                return CheckOutcome::NotInstalled;
            },
        };
        let latest = match self.registry.get_latest_version(local.name()) {
            Ok(v) => v,
            Err(_) => {
                return CheckOutcome::NotAvailable;
            },
        };
        match classify_lookup(local, Some(latest)) {
            Some(p) => CheckOutcome::Checked(p),
            None => CheckOutcome::NotAvailable,
        }
    }

    /// Classify every inventory package whose registry lookup succeeds,
    /// in inventory order; packages the registry does not know are
    /// skipped, not errors. Every returned entry carries the latest
    /// remote version and the classification of that version against the
    /// entry's package.
    pub fn get_package_statuses(&self) -> (r: Vec<PackageWithStatus>)
        requires
            self.packages.wf(),
        ensures
            selection_of(pws_views(r@), self.inventory()),
            r@.len() <= self.inventory().len(),
            statuses_ordered(pws_views(r@)),
            forall|k: int|
                0 <= k < r@.len() ==> {
                    let p = #[trigger] r@[k]@;
                    &&& self.inventory().contains(p.package)
                    &&& p.latest_version matches Some(lv) && p.status == classify_spec(
                        lv,
                        p.package.version,
                    )
                },
    {
        let pkgs = self.packages.packages();
        let n = pkgs.len();
        let mut out: Vec<PackageWithStatus> = Vec::new();
        let ghost mut pos = Seq::<int>::empty();
        let mut i: usize = 0;
        while i < n
            invariant
                0 <= i <= n,
                n == pkgs@.len(),
                crate::tree::pkgs_view(pkgs@) == self.inventory(),
                crate::tree::sorted_views(self.inventory()),
                selection_at(pws_views(out@), self.inventory(), pos),
                forall|k: int| 0 <= k < pos.len() ==> #[trigger] pos[k] < i,
                forall|k: int|
                    0 <= k < out@.len() ==> {
                        let p = #[trigger] out@[k]@;
                        &&& self.inventory().contains(p.package)
                        &&& p.latest_version matches Some(lv) && p.status == classify_spec(
                            lv,
                            p.package.version,
                        )
                    },
            decreases n - i,
        {
            let package = &pkgs[i];
            proof {
                assert(crate::tree::pkgs_view(pkgs@)[i as int] == pkgs@[i as int]@);
            }
            match self.registry.get_latest_version(package.name()) {
                Ok(latest) => {
                    let status = classify(&latest, package.version());
                    let entry = PackageWithStatus::new(package.clone(), status, Some(latest));
                    proof {
                        assert(self.inventory().contains(entry@.package)) by {
                            assert(self.inventory()[i as int] == entry@.package);
                        }
                    }
                    let ghost prev = out@;
                    out.push(entry);
                    proof {
                        pos = pos.push(i as int);
                        assert(selection_at(pws_views(out@), self.inventory(), pos)) by {
                            assert forall|k: int|
                                0 <= k < pos.len() implies 0 <= #[trigger] pos[k]
                                    < self.inventory().len() && pws_views(out@)[k].package
                                    == self.inventory()[pos[k]] by {
                                assert(pws_views(out@)[k] == out@[k]@);
                                if k < prev.len() {
                                    assert(out@[k] == prev[k]);
                                    assert(pws_views(prev)[k] == prev[k]@);
                                } else {
                                    assert(out@[k]@.package == self.inventory()[i as int]);
                                }
                            }
                        }
                    }
                },
                Err(_) => {},
            }
            i = i + 1;
        }
        proof {
            lemma_selection_ordered(pws_views(out@), self.inventory(), pos);
            assert(selection_of(pws_views(out@), self.inventory()));
            lemma_selection_len(pws_views(out@), self.inventory());
        }
        out
    }

    /// Check the whole inventory: nothing when no successfully looked-up
    /// package is out of date — "all up to date" — else the outdated
    /// entries in inventory order with their display padding.
    pub fn check_all_packages(&self) -> (r: Option<CheckAllReport>)
        requires
            self.packages.wf(),
        ensures
            r matches Some(rep) ==> selection_of(rep@.outdated, self.inventory())
                && rep@.outdated.len() <= self.inventory().len(),
            r matches Some(rep) ==> statuses_ordered(rep@.outdated),
            r matches Some(rep) ==> rep@.outdated.len() > 0 && rep@.padding == max_name_len(
                rep@.outdated,
            ) && forall|k: int|
                0 <= k < rep@.outdated.len() ==> {
                    let p = #[trigger] rep@.outdated[k];
                    &&& self.inventory().contains(p.package)
                    &&& p.status is OutOfDate
                    &&& p.latest_version matches Some(lv) && !version_le_spec(
                        lv,
                        p.package.version,
                    )
                },
    {
        let statuses = self.get_package_statuses();
        let ghost svs = pws_views(statuses@);
        proof {
            lemma_outdated_of_entries(svs);
            lemma_outdated_of_ordered(svs);
            lemma_outdated_of_picked(svs);
            let q = choose|q: Seq<int>| picked_at(outdated_of(svs), svs, q);
            let pos = choose|pos: Seq<int>| selection_at(svs, self.inventory(), pos);
            lemma_selection_compose(outdated_of(svs), svs, self.inventory(), q, pos);
            lemma_selection_len(outdated_of(svs), self.inventory());
            assert forall|k: int| 0 <= k < svs.len() implies #[trigger] svs[k]
                == statuses@[k]@ by {}
        }
        collect_outdated(statuses)
    }

    /// The decision part of updating one package: the same classification
    /// as `check_package`; an update is warranted exactly when the
    /// outcome carries an out-of-date package, whose latest version is
    /// then the update's target.
    pub fn update_package(&self, package_name: &str) -> (r: CheckOutcome)
        ensures
            r@ is NotInstalled <==> find_by_name(self.inventory(), package_name@) is None,
            r@ is NotAvailable ==> find_by_name(self.inventory(), package_name@) is Some,
            r@ matches CheckOutcomeView::Checked(p) ==> find_by_name(
                self.inventory(),
                package_name@,
            ) matches Some(pv) && p.package == pv && status_entry_consistent(p) && (
            p.status is OutOfDate ==> p.latest_version is Some),
    {
        self.check_package(package_name)
    }

    /// The decision part of updating everything: the outdated subset of
    /// `check_all_packages`, each entry carrying its update target; the
    /// actuator is then driven over the entries in order, stopping at the
    /// first failure.
    pub fn update_all_packages(&self) -> (r: Option<CheckAllReport>)
        requires
            self.packages.wf(),
        ensures
            r matches Some(rep) ==> selection_of(rep@.outdated, self.inventory())
                && rep@.outdated.len() <= self.inventory().len(),
            r matches Some(rep) ==> statuses_ordered(rep@.outdated),
            r matches Some(rep) ==> rep@.outdated.len() > 0 && forall|k: int|
                0 <= k < rep@.outdated.len() ==> {
                    let p = #[trigger] rep@.outdated[k];
                    &&& self.inventory().contains(p.package)
                    &&& p.status is OutOfDate
                    &&& p.latest_version is Some
                },
    {
        self.check_all_packages()
    }
}

/// `q` places every picked entry at its own position of the source
/// list, in strictly increasing order.
pub open spec fn picked_at(
    xs: Seq<PackageWithStatusView>,
    ys: Seq<PackageWithStatusView>,
    q: Seq<int>,
) -> bool {
    &&& q.len() == xs.len()
    &&& forall|k: int| 0 <= k < q.len() ==> 0 <= #[trigger] q[k] < ys.len() && xs[k] == ys[q[k]]
    &&& forall|k1: int, k2: int| 0 <= k1 < k2 < q.len() ==> q[k1] < q[k2]
}

/// The outdated subset is an order-preserving pick of the status list.
proof fn lemma_outdated_of_picked(s: Seq<PackageWithStatusView>)
    ensures
        exists|q: Seq<int>| picked_at(outdated_of(s), s, q),
    decreases s.len(),
{
    if s.len() == 0 {
        assert(picked_at(outdated_of(s), s, Seq::<int>::empty()));
    } else {
        lemma_outdated_of_picked(s.drop_last());
        let rest = outdated_of(s.drop_last());
        let q0 = choose|q: Seq<int>| picked_at(rest, s.drop_last(), q);
        if s.last().status is OutOfDate {
            let q = q0.push(s.len() - 1);
            assert(picked_at(outdated_of(s), s, q)) by {
                assert forall|k: int|
                    0 <= k < q.len() implies 0 <= #[trigger] q[k] < s.len() && outdated_of(
                    s,
                )[k] == s[q[k]] by {
                    if k < q0.len() {
                        assert(outdated_of(s)[k] == rest[k]);
                        assert(rest[k] == s.drop_last()[q0[k]]);
                        assert(s.drop_last()[q0[k]] == s[q0[k]]);
                    } else {
                        assert(outdated_of(s)[k] == s.last());
                    }
                }
            }
        } else {
            assert(picked_at(outdated_of(s), s, q0)) by {
                assert forall|k: int|
                    0 <= k < q0.len() implies 0 <= #[trigger] q0[k] < s.len() && outdated_of(
                    s,
                )[k] == s[q0[k]] by {
                    assert(outdated_of(s)[k] == rest[k]);
                    assert(rest[k] == s.drop_last()[q0[k]]);
                    assert(s.drop_last()[q0[k]] == s[q0[k]]);
                }
            }
        }
    }
}

/// Picking from a selection of the inventory is itself a selection of
/// the inventory.
proof fn lemma_selection_compose(
    xs: Seq<PackageWithStatusView>,
    ys: Seq<PackageWithStatusView>,
    inv: Seq<PackageView>,
    q: Seq<int>,
    pos: Seq<int>,
)
    requires
        picked_at(xs, ys, q),
        selection_at(ys, inv, pos),
    ensures
        selection_of(xs, inv),
{
    let composed = Seq::<int>::new(q.len() as nat, |k: int| pos[q[k]]);
    assert(selection_at(xs, inv, composed)) by {
        assert forall|k: int|
            0 <= k < composed.len() implies 0 <= #[trigger] composed[k] < inv.len() && xs[k].package
                == inv[composed[k]] by {
            assert(xs[k] == ys[q[k]]);
            assert(ys[q[k]].package == inv[pos[q[k]]]);
        }
        assert forall|k1: int, k2: int|
            0 <= k1 < k2 < composed.len() implies composed[k1] < composed[k2] by {
            assert(q[k1] < q[k2]);
            assert(pos[q[k1]] < pos[q[k2]]);
        }
    }
}

/// A subsequence of an ordered status list stays ordered.
proof fn lemma_outdated_of_ordered(s: Seq<PackageWithStatusView>)
    requires
        statuses_ordered(s),
    ensures
        statuses_ordered(outdated_of(s)),
    decreases s.len(),
{
    if s.len() > 0 {
        assert forall|k1: int, k2: int|
            0 <= k1 < k2 < s.drop_last().len() implies package_le_spec(
            #[trigger] s.drop_last()[k1].package,
            #[trigger] s.drop_last()[k2].package,
        ) by {
            assert(package_le_spec(s[k1].package, s[k2].package));
        }
        lemma_outdated_of_ordered(s.drop_last());
        lemma_outdated_of_entries(s.drop_last());
        let rest = outdated_of(s.drop_last());
        assert forall|k1: int, k2: int|
            0 <= k1 < k2 < outdated_of(s).len() implies package_le_spec(
            #[trigger] outdated_of(s)[k1].package,
            #[trigger] outdated_of(s)[k2].package,
        ) by {
            if k2 < rest.len() {
                assert(package_le_spec(rest[k1].package, rest[k2].package));
            } else {
                assert(outdated_of(s)[k2] == s[s.len() - 1]);
                assert(outdated_of(s)[k1] == rest[k1]);
                assert(s.drop_last().contains(rest[k1]));
                let j = choose|j: int|
                    0 <= j < s.drop_last().len() && #[trigger] s.drop_last()[j] == rest[k1];
                assert(s[j] == rest[k1]);
                assert(package_le_spec(s[j].package, s[s.len() - 1].package));
            }
        }
    }
}

/// Entries of the outdated subset come from the status list, keep their
/// consistency, and are out of date.
proof fn lemma_outdated_of_entries(s: Seq<PackageWithStatusView>)
    ensures
        forall|k: int|
            0 <= k < outdated_of(s).len() ==> s.contains(#[trigger] outdated_of(s)[k])
                && outdated_of(s)[k].status is OutOfDate,
    decreases s.len(),
{
    if s.len() > 0 {
        lemma_outdated_of_entries(s.drop_last());
        assert forall|k: int| 0 <= k < outdated_of(s).len() implies s.contains(
            #[trigger] outdated_of(s)[k],
        ) && outdated_of(s)[k].status is OutOfDate by {
            let rest = outdated_of(s.drop_last());
            if k < rest.len() {
                assert(s.drop_last().contains(rest[k]));
                let j = choose|j: int|
                    0 <= j < s.drop_last().len() && #[trigger] s.drop_last()[j] == rest[k];
                assert(s[j] == rest[k]);
            } else {
                assert(s.last().status is OutOfDate);
                assert(s[s.len() - 1] == outdated_of(s)[k]);
            }
        }
    }
}

} // verus!
