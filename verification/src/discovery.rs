//! The discovery map: executables found on the machine, grouped by
//! package key. Parallel scraping workers each build one map and the maps
//! are then merged; merging concatenates the executable lists of equal
//! keys, so the abstraction of a map is, per key, the multiset of
//! executable names, and merging is commutative and associative over it.

use vstd::multiset::Multiset;
use vstd::prelude::*;

use crate::package::{execs_view, PackageExecutable, PackageKey, PackageKeyView};

verus! {

/// One discovered package with the executables attributed to it so far.
pub struct DiscoveryEntry {
    key: PackageKey,
    execs: Vec<PackageExecutable>,
}

/// Mathematical value of a `DiscoveryEntry`.
pub struct DiscoveryEntryView {
    pub key: PackageKeyView,
    pub execs: Seq<Seq<char>>,
}

impl View for DiscoveryEntry {
    type V = DiscoveryEntryView;

    closed spec fn view(&self) -> DiscoveryEntryView {
        DiscoveryEntryView { key: self.key@, execs: execs_view(self.execs@) }
    }
}

impl DiscoveryEntry {
    /// Build an entry from a key and its executables.
    pub fn new(key: PackageKey, execs: Vec<PackageExecutable>) -> (r: Self)
        ensures
            r@.key == key@,
            r@.execs == execs_view(execs@),
    {
        DiscoveryEntry { key, execs }
    }

    /// The entry's package key.
    pub fn key(&self) -> (r: &PackageKey)
        ensures
            r@ == self@.key,
    {
        &self.key
    }

    /// The entry's executables.
    pub fn execs(&self) -> (r: &Vec<PackageExecutable>)
        ensures
            execs_view(r@) == self@.execs,
    {
        &self.execs
    }

    /// Take the entry apart into its key and executables.
    pub fn into_parts(self) -> (r: (PackageKey, Vec<PackageExecutable>))
        ensures
            r.0@ == self@.key,
            execs_view(r.1@) == self@.execs,
    {
        (self.key, self.execs)
    }
}

/// The views of a sequence of entries.
pub open spec fn entry_views(s: Seq<DiscoveryEntry>) -> Seq<DiscoveryEntryView> {
    s.map_values(|e: DiscoveryEntry| e@)
}

/// Whether some entry carries the key.
pub open spec fn has_key(vs: Seq<DiscoveryEntryView>, k: PackageKeyView) -> bool {
    exists|i: int| 0 <= i < vs.len() && #[trigger] vs[i].key == k
}

/// No two entries share a key.
pub open spec fn distinct_keys(vs: Seq<DiscoveryEntryView>) -> bool {
    forall|i: int, j: int| 0 <= i < j < vs.len() ==> #[trigger] vs[i].key != #[trigger] vs[j].key
}

/// The index of the entry carrying the key.
pub open spec fn key_index(vs: Seq<DiscoveryEntryView>, k: PackageKeyView) -> int {
    choose|i: int| 0 <= i < vs.len() && #[trigger] vs[i].key == k
}

/// The abstraction of a sequence of entries: per key, the multiset of
/// executable names attributed to it.
pub open spec fn map_of(vs: Seq<DiscoveryEntryView>) -> Map<PackageKeyView, Multiset<Seq<char>>> {
    Map::new(|k: PackageKeyView| has_key(vs, k), |k: PackageKeyView| vs[key_index(vs, k)].execs.to_multiset())
}

/// Merging two per-key multiset maps: the domains unite, and the
/// multisets of a shared key add.
pub open spec fn merge_model(
    a: Map<PackageKeyView, Multiset<Seq<char>>>,
    b: Map<PackageKeyView, Multiset<Seq<char>>>,
) -> Map<PackageKeyView, Multiset<Seq<char>>> {
    Map::new(
        |k: PackageKeyView| a.dom().contains(k) || b.dom().contains(k),
        |k: PackageKeyView|
            if a.dom().contains(k) && b.dom().contains(k) {
                a[k].add(b[k])
            } else if a.dom().contains(k) {
                a[k]
            } else {
                b[k]
            },
    )
}

/// Merging is commutative: the reduction order of two scraping workers'
/// maps does not matter.
pub proof fn lemma_merge_model_commutative(
    a: Map<PackageKeyView, Multiset<Seq<char>>>,
    b: Map<PackageKeyView, Multiset<Seq<char>>>,
)
    ensures
        merge_model(a, b) == merge_model(b, a),
{
    let ab = merge_model(a, b);
    let ba = merge_model(b, a);
    assert forall|k: PackageKeyView| ab.dom().contains(k) implies ab[k] == ba[k] by {
        if a.dom().contains(k) && b.dom().contains(k) {
            assert(a[k].add(b[k]) =~= b[k].add(a[k]));
        }
    }
    assert(ab =~= ba);
}

/// Merging is associative: any grouping of the workers' maps reduces to
/// the same map.
pub proof fn lemma_merge_model_associative(
    a: Map<PackageKeyView, Multiset<Seq<char>>>,
    b: Map<PackageKeyView, Multiset<Seq<char>>>,
    c: Map<PackageKeyView, Multiset<Seq<char>>>,
)
    ensures
        merge_model(merge_model(a, b), c) == merge_model(a, merge_model(b, c)),
{
    let l = merge_model(merge_model(a, b), c);
    let r = merge_model(a, merge_model(b, c));
    assert forall|k: PackageKeyView| l.dom().contains(k) implies l[k] == r[k] by {
        if a.dom().contains(k) && b.dom().contains(k) && c.dom().contains(k) {
            assert(a[k].add(b[k]).add(c[k]) =~= a[k].add(b[k].add(c[k])));
        }
    }
    assert(l =~= r);
}

/// A map of discovered packages, keyed by name and version.
pub struct DiscoveryMap {
    entries: Vec<DiscoveryEntry>,
}

impl View for DiscoveryMap {
    type V = Seq<DiscoveryEntryView>;

    closed spec fn view(&self) -> Seq<DiscoveryEntryView> {
        entry_views(self.entries@)
    }
}

/// Under distinct keys, every entry carrying `k` is the entry at
/// `key_index`.
proof fn lemma_key_index_unique(vs: Seq<DiscoveryEntryView>, k: PackageKeyView, i: int)
    requires
        distinct_keys(vs),
        0 <= i < vs.len(),
        vs[i].key == k,
    ensures
        key_index(vs, k) == i,
        has_key(vs, k),
{
    assert(has_key(vs, k));
    let j = key_index(vs, k);
    if i < j {
        assert(vs[i].key != vs[j].key);
    } else if j < i {
        assert(vs[j].key != vs[i].key);
    }
}

impl DiscoveryMap {
    /// Every key appears in at most one entry.
    pub open spec fn wf(&self) -> bool {
        distinct_keys(self@)
    }

    /// The per-key multiset abstraction of the map.
    pub open spec fn model(&self) -> Map<PackageKeyView, Multiset<Seq<char>>> {
        map_of(self@)
    }

    /// An empty map.
    pub fn new() -> (r: Self)
        ensures
            r.wf(),
            r@ =~= Seq::<DiscoveryEntryView>::empty(),
            r.model() =~= Map::<PackageKeyView, Multiset<Seq<char>>>::empty(),
    {
        let r = DiscoveryMap { entries: Vec::new() };
        proof {
            assert(forall|k: PackageKeyView| !has_key(r@, k));
            assert(r.model() =~= Map::<PackageKeyView, Multiset<Seq<char>>>::empty());
        }
        r
    }

    /// The entries of the map, in insertion order.
    pub fn entries(&self) -> (r: &Vec<DiscoveryEntry>)
        ensures
            entry_views(r@) == self@,
    {
        &self.entries
    }

    /// Take the map apart into its entries, in insertion order.
    pub fn into_entries(self) -> (r: Vec<DiscoveryEntry>)
        ensures
            entry_views(r@) == self@,
    {
        self.entries
    }

    /// Record a whole discovered entry: its executables join the list of
    /// an entry with the same key, a fresh key keeping the entry as it
    /// stands, also when its executable list is empty.
    pub fn add_entry(&mut self, key: PackageKey, execs: Vec<PackageExecutable>)
        requires
            old(self).wf(),
        ensures
            final(self).wf(),
            final(self).model() == add_entry_model(
                old(self).model(),
                key@,
                execs_view(execs@).to_multiset(),
            ),
    {
        let mut incoming = execs;
        let ghost raw0 = self.entries@;
        let ghost vs0 = self@;
        let ghost m0 = self.model();
        let ghost exseq = incoming@;
        let ghost ms = execs_view(incoming@).to_multiset();
        let n = self.entries.len();
        let mut i: usize = 0;
        while i < n
            invariant
                0 <= i <= n,
                n == self.entries@.len(),
                self.entries@ == raw0,
                vs0 == entry_views(raw0),
                old(self)@ == vs0,
                old(self).model() == m0,
                self.wf(),
                incoming@ == exseq,
                exseq == execs@,
                ms == execs_view(exseq).to_multiset(),
                forall|j: int| 0 <= j < i ==> #[trigger] vs0[j].key != key@,
            decreases n - i,
        {
            proof {
                assert(vs0[i as int] == raw0[i as int]@);
            }
            if self.entries[i].key().key_eq(&key) {
                proof {
                    assert(vs0[i as int].key == key@);
                    lemma_key_index_unique(vs0, key@, i as int);
                }
                let mut entry = self.entries.remove(i);
                let ghost old_execs = entry.execs@;
                entry.execs.append(&mut incoming);
                let ghost new_entry = entry@;
                proof {
                    assert(entry.execs@ == old_execs + exseq);
                    assert(execs_view(old_execs + exseq) =~= execs_view(old_execs) + execs_view(
                        exseq,
                    )) by {
                        assert forall|j: int|
                            0 <= j < old_execs.len() + exseq.len() implies execs_view(
                            old_execs + exseq,
                        )[j] == (execs_view(old_execs) + execs_view(exseq))[j] by {
                            assert(execs_view(old_execs + exseq)[j] == (old_execs + exseq)[j]@);
                            if j < old_execs.len() {
                                assert(execs_view(old_execs)[j] == old_execs[j]@);
                            } else {
                                assert(execs_view(exseq)[j - old_execs.len()] == exseq[j
                                    - old_execs.len()]@);
                            }
                        }
                    }
                    vstd::seq_lib::lemma_multiset_commutative(
                        execs_view(old_execs),
                        execs_view(exseq),
                    );
                    assert(new_entry.execs.to_multiset() =~= vs0[i as int].execs.to_multiset()
                        .add(ms));
                    assert(new_entry.key == key@);
                }
                self.entries.insert(i, entry);
                proof {
                    assert(self.entries@ =~= raw0.update(i as int, entry)) by {
                        assert(self.entries@ == raw0.remove(i as int).insert(i as int, entry));
                    }
                    assert(entry_views(self.entries@) =~= vs0.update(i as int, new_entry)) by {
                        assert forall|j: int| 0 <= j < vs0.len() implies entry_views(
                            self.entries@,
                        )[j] == vs0.update(i as int, new_entry)[j] by {
                            assert(entry_views(self.entries@)[j] == self.entries@[j]@);
                            if j != i {
                                assert(self.entries@[j] == raw0[j]);
                                assert(vs0[j] == raw0[j]@);
                            }
                        }
                    }
                    lemma_map_of_update(vs0, i as int, new_entry);
                    assert(m0.dom().contains(key@));
                    assert(m0[key@] == vs0[i as int].execs.to_multiset());
                    assert(self.model() == add_entry_model(m0, key@, ms));
                }
                return;
            }
            i = i + 1;
        }
        proof {
            assert(!has_key(vs0, key@));
        }
        let entry = DiscoveryEntry::new(key, incoming);
        let ghost new_entry = entry@;
        self.entries.push(entry);
        proof {
            assert(entry_views(self.entries@) =~= vs0.push(new_entry)) by {
                assert forall|j: int| 0 <= j < vs0.len() + 1 implies entry_views(
                    self.entries@,
                )[j] == vs0.push(new_entry)[j] by {
                    assert(entry_views(self.entries@)[j] == self.entries@[j]@);
                    if j < vs0.len() {
                        assert(self.entries@[j] == raw0[j]);
                        assert(vs0[j] == raw0[j]@);
                    }
                }
            }
            lemma_map_of_push_new(vs0, new_entry);
            assert(self.model() == add_entry_model(m0, key@, ms));
        }
    }

    /// Merge another map into this one, as the parallel scrape's reduction
    /// does: per shared key the executable lists concatenate, other keys
    /// carry over.
    pub fn merge(&mut self, other: DiscoveryMap)
        requires
            old(self).wf(),
            other.wf(),
        ensures
            final(self).wf(),
            final(self).model() == merge_model(old(self).model(), other.model()),
    {
        let ghost m0 = self.model();
        let ghost other0 = other@;
        let mut rest = other;
        loop
            invariant
                self.wf(),
                distinct_keys(rest@),
                old(self).model() == m0,
                other@ == other0,
                merge_model(m0, map_of(other0)) == merge_model(self.model(), rest.model()),
            ensures
                self.wf(),
                old(self).model() == m0,
                merge_model(m0, map_of(other0)) == merge_model(self.model(), rest.model()),
                rest@.len() == 0,
            decreases rest@.len(),
        {
            let ghost pre_raw = rest.entries@;
            let ghost pre_vs = rest@;
            let ghost before = self.model();
            let entry = match rest.entries.pop() {
                Some(e) => e,
                None => {
                    break;
                },
            };
            let ghost prev = rest@;
            let ghost popped = entry@;
            proof {
                assert(pre_vs =~= prev.push(popped)) by {
                    assert forall|j: int| 0 <= j < pre_vs.len() implies pre_vs[j] == prev.push(
                        popped,
                    )[j] by {
                        assert(pre_vs[j] == pre_raw[j]@);
                        if j < pre_vs.len() - 1 {
                            assert(rest.entries@[j] == pre_raw[j]);
                            assert(prev[j] == rest.entries@[j]@);
                        }
                    }
                }
                assert forall|p: int, q: int|
                    0 <= p < q < prev.len() implies #[trigger] prev[p].key
                    != #[trigger] prev[q].key by {
                    assert(pre_vs[p].key != pre_vs[q].key);
                }
                assert(!has_key(prev, popped.key)) by {
                    if has_key(prev, popped.key) {
                        let j = choose|j: int|
                            0 <= j < prev.len() && #[trigger] prev[j].key == popped.key;
                        assert(pre_vs[j].key != pre_vs[pre_vs.len() - 1].key);
                    }
                }
                lemma_map_of_push_new(prev, popped);
            }
            let DiscoveryEntry { key, execs } = entry;
            proof {
                assert(popped.key == key@);
                assert(popped.execs == execs_view(execs@));
            }
            self.add_entry(key, execs);
            proof {
                lemma_merge_step(before, map_of(prev), popped.key, popped.execs.to_multiset());
                assert(merge_model(m0, map_of(other0)) == merge_model(
                    self.model(),
                    rest.model(),
                ));
            }
        }
        proof {
            assert(rest@.len() == 0);
            assert(forall|k: PackageKeyView| !has_key(rest@, k));
            assert(merge_model(self.model(), rest.model()) =~= self.model());
        }
    }

    /// Record one executable for a key: the executable joins the key's
    /// list, a fresh key starting a list of its own.
    pub fn add_binary(&mut self, key: PackageKey, exec: PackageExecutable)
        requires
            old(self).wf(),
        ensures
            final(self).wf(),
            final(self).model() == add_exec_model(old(self).model(), key@, exec@),
    {
        let ghost raw0 = self.entries@;
        let ghost vs0 = self@;
        let ghost m0 = self.model();
        let n = self.entries.len();
        let mut i: usize = 0;
        while i < n
            invariant
                0 <= i <= n,
                n == self.entries@.len(),
                self.entries@ == raw0,
                vs0 == entry_views(raw0),
                old(self)@ == vs0,
                old(self).model() == m0,
                self.wf(),
                m0 == self.model(),
                forall|j: int| 0 <= j < i ==> #[trigger] vs0[j].key != key@,
            decreases n - i,
        {
            proof {
                assert(vs0[i as int] == raw0[i as int]@);
            }
            if self.entries[i].key().key_eq(&key) {
                proof {
                    assert(vs0[i as int].key == key@);
                    lemma_key_index_unique(vs0, key@, i as int);
                }
                let mut entry = self.entries.remove(i);
                let ghost old_execs = entry.execs@;
                entry.execs.push(exec);
                let ghost new_entry = entry@;
                proof {
                    assert(execs_view(old_execs.push(exec)) =~= execs_view(old_execs).push(exec@))
                        by {
                        assert forall|j: int| 0 <= j < old_execs.len() + 1 implies execs_view(
                            old_execs.push(exec),
                        )[j] == execs_view(old_execs).push(exec@)[j] by {
                            assert(execs_view(old_execs.push(exec))[j] == old_execs.push(
                                exec,
                            )[j]@);
                        }
                    }
                    assert(new_entry.execs == vs0[i as int].execs.push(exec@));
                    assert(new_entry.key == key@);
                }
                self.entries.insert(i, entry);
                proof {
                    assert(self.entries@ =~= raw0.update(i as int, entry)) by {
                        assert(self.entries@ == raw0.remove(i as int).insert(i as int, entry));
                    }
                    assert(entry_views(self.entries@) =~= vs0.update(i as int, new_entry)) by {
                        assert forall|j: int| 0 <= j < vs0.len() implies entry_views(
                            self.entries@,
                        )[j] == vs0.update(i as int, new_entry)[j] by {
                            assert(entry_views(self.entries@)[j] == self.entries@[j]@);
                            if j != i {
                                assert(self.entries@[j] == raw0[j]);
                                assert(vs0[j] == raw0[j]@);
                            }
                        }
                    }
                    lemma_map_of_update(vs0, i as int, new_entry);
                    assert(self@ == vs0.update(i as int, new_entry));
                    assert(self.model() == map_of(vs0.update(i as int, new_entry)));
                    broadcast use vstd::seq_lib::group_to_multiset_ensures;

                    assert(new_entry.execs.to_multiset() =~= vs0[i as int].execs.to_multiset()
                        .insert(exec@));
                    assert(m0.dom().contains(key@));
                    assert(m0[key@] == vs0[i as int].execs.to_multiset());
                    assert(self.model() == add_exec_model(m0, key@, exec@));
                    assert(m0 == old(self).model());
                    assert(self.model() == add_exec_model(old(self).model(), key@, exec@));
                }
                return;
            }
            i = i + 1;
        }
        proof {
            assert(!has_key(vs0, key@));
        }
        let mut execs: Vec<PackageExecutable> = Vec::new();
        execs.push(exec);
        let entry = DiscoveryEntry::new(key, execs);
        let ghost new_entry = entry@;
        self.entries.push(entry);
        proof {
            assert(execs_view(execs@) =~= seq![exec@]) by {
                assert(execs@ =~= Seq::<PackageExecutable>::empty().push(exec));
                assert(execs_view(execs@)[0] == execs@[0]@);
            }
            assert(entry_views(self.entries@) =~= vs0.push(new_entry)) by {
                assert forall|j: int| 0 <= j < vs0.len() + 1 implies entry_views(
                    self.entries@,
                )[j] == vs0.push(new_entry)[j] by {
                    assert(entry_views(self.entries@)[j] == self.entries@[j]@);
                    if j < vs0.len() {
                        assert(self.entries@[j] == raw0[j]);
                        assert(vs0[j] == raw0[j]@);
                    }
                }
            }
            lemma_map_of_push_new(vs0, new_entry);
            broadcast use vstd::seq_lib::group_to_multiset_ensures;

            assert(seq![exec@].to_multiset() =~= Multiset::<Seq<char>>::empty().insert(exec@)) by {
                assert(seq![exec@] =~= Seq::<Seq<char>>::empty().push(exec@));
                assert(Seq::<Seq<char>>::empty().push(exec@).to_multiset() =~= Seq::<
                    Seq<char>,
                >::empty().to_multiset().insert(exec@));
                assert(Seq::<Seq<char>>::empty().to_multiset() =~= Multiset::<
                    Seq<char>,
                >::empty()) by {
                    assert forall|e: Seq<char>|
                        Seq::<Seq<char>>::empty().to_multiset().count(e) == 0 by {
                        assert(!Seq::<Seq<char>>::empty().contains(e));
                    }
                }
            }
            assert(new_entry.execs =~= seq![exec@]);
            assert(self.model() =~= add_exec_model(m0, key@, exec@));
        }
    }
}

/// Adding a whole entry to a per-key multiset map: the key's multiset
/// grows by the entry's executables, a fresh key being bound to them.
pub open spec fn add_entry_model(
    m: Map<PackageKeyView, Multiset<Seq<char>>>,
    k: PackageKeyView,
    ms: Multiset<Seq<char>>,
) -> Map<PackageKeyView, Multiset<Seq<char>>> {
    if m.dom().contains(k) {
        m.insert(k, m[k].add(ms))
    } else {
        m.insert(k, ms)
    }
}

/// Adding one executable to a per-key multiset map.
pub open spec fn add_exec_model(
    m: Map<PackageKeyView, Multiset<Seq<char>>>,
    k: PackageKeyView,
    e: Seq<char>,
) -> Map<PackageKeyView, Multiset<Seq<char>>> {
    if m.dom().contains(k) {
        m.insert(k, m[k].insert(e))
    } else {
        m.insert(k, Multiset::<Seq<char>>::empty().insert(e))
    }
}

/// Replacing the entry at a key's index rebinds that key to the new
/// entry's executables.
proof fn lemma_map_of_update(vs: Seq<DiscoveryEntryView>, i: int, e: DiscoveryEntryView)
    requires
        distinct_keys(vs),
        0 <= i < vs.len(),
        e.key == vs[i].key,
    ensures
        distinct_keys(vs.update(i, e)),
        map_of(vs.update(i, e)) == map_of(vs).insert(e.key, e.execs.to_multiset()),
{
    let k = e.key;
    let vs2 = vs.update(i, e);
    assert forall|p: int, q: int| 0 <= p < q < vs2.len() implies #[trigger] vs2[p].key
        != #[trigger] vs2[q].key by {
        assert(vs[p].key != vs[q].key);
    }
    lemma_key_index_unique(vs, k, i);
    lemma_key_index_unique(vs2, k, i);
    broadcast use vstd::seq_lib::group_to_multiset_ensures;

    assert forall|kk: PackageKeyView| #[trigger] has_key(vs2, kk) <==> has_key(vs, kk) by {
        if has_key(vs2, kk) {
            let j = choose|j: int| 0 <= j < vs2.len() && #[trigger] vs2[j].key == kk;
            if j == i {
                assert(vs[i].key == kk);
            } else {
                assert(vs[j].key == kk);
            }
        }
        if has_key(vs, kk) {
            let j = choose|j: int| 0 <= j < vs.len() && #[trigger] vs[j].key == kk;
            if j == i {
                assert(vs2[i].key == kk);
            } else {
                assert(vs2[j].key == kk);
            }
        }
    }
    assert forall|kk: PackageKeyView| map_of(vs2).dom().contains(kk) implies map_of(vs2)[kk]
        == map_of(vs).insert(k, e.execs.to_multiset())[kk] by {
        if kk != k {
            let j = key_index(vs2, kk);
            assert(vs2[j].key == kk);
            assert(j != i);
            assert(vs[j].key == kk);
            lemma_key_index_unique(vs, kk, j);
        }
    }
    assert(map_of(vs2) =~= map_of(vs).insert(k, e.execs.to_multiset()));
}

/// Folding one entry out of the right map and into the left map keeps the
/// merge of the two unchanged.
proof fn lemma_merge_step(
    a: Map<PackageKeyView, Multiset<Seq<char>>>,
    b: Map<PackageKeyView, Multiset<Seq<char>>>,
    k: PackageKeyView,
    ms: Multiset<Seq<char>>,
)
    requires
        !b.dom().contains(k),
    ensures
        merge_model(a, b.insert(k, ms)) == merge_model(add_entry_model(a, k, ms), b),
{
    let l = merge_model(a, b.insert(k, ms));
    let r = merge_model(add_entry_model(a, k, ms), b);
    assert forall|kk: PackageKeyView| l.dom().contains(kk) implies l[kk] == r[kk] by {}
    assert(l =~= r);
}

/// Appending an entry with a fresh key takes the abstraction from `m` to
/// `m` with that key bound to the entry's executables.
proof fn lemma_map_of_push_new(vs: Seq<DiscoveryEntryView>, e: DiscoveryEntryView)
    requires
        distinct_keys(vs),
        !has_key(vs, e.key),
    ensures
        distinct_keys(vs.push(e)),
        map_of(vs.push(e)) == map_of(vs).insert(e.key, e.execs.to_multiset()),
{
    let vs2 = vs.push(e);
    assert forall|p: int, q: int| 0 <= p < q < vs2.len() implies #[trigger] vs2[p].key
        != #[trigger] vs2[q].key by {
        if q < vs.len() {
            assert(vs[p].key != vs[q].key);
        } else {
            assert(vs2[p] == vs[p]);
            if vs[p].key == e.key {
                assert(has_key(vs, e.key));
            }
        }
    }
    lemma_key_index_unique(vs2, e.key, vs.len() as int);
    assert forall|kk: PackageKeyView| #[trigger] has_key(vs2, kk) <==> has_key(vs, kk) || kk
        == e.key by {
        if has_key(vs2, kk) {
            let j = choose|j: int| 0 <= j < vs2.len() && #[trigger] vs2[j].key == kk;
            if j < vs.len() {
                assert(vs[j].key == kk);
            }
        }
        if has_key(vs, kk) {
            let j = choose|j: int| 0 <= j < vs.len() && #[trigger] vs[j].key == kk;
            assert(vs2[j].key == kk);
        }
        if kk == e.key {
            assert(vs2[vs.len() as int].key == kk);
        }
    }
    assert forall|kk: PackageKeyView| map_of(vs2).dom().contains(kk) implies map_of(vs2)[kk]
        == map_of(vs).insert(e.key, e.execs.to_multiset())[kk] by {
        if kk == e.key {
        } else {
            let j = key_index(vs2, kk);
            assert(vs2[j].key == kk);
            assert(j != vs.len());
            assert(vs[j].key == kk);
            lemma_key_index_unique(vs, kk, j);
        }
    }
    assert(map_of(vs2) =~= map_of(vs).insert(e.key, e.execs.to_multiset()));
}

} // verus!
