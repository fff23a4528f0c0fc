//! The accumulator: records grouped by their key cells.
//!
//! Each record whose value cell is numeric becomes a sample, numbered from
//! zero in order of arrival; the numbers index the values that the caller
//! parsed. A group holds the numbers of its samples in order of arrival.
use crate::header::HeaderIndex;
use crate::text::{cells_view, same_cells};
use vstd::prelude::*;
use vstd::pervasive::VecAdditionalExecFns;

verus! {

broadcast use vstd::seq_lib::group_to_multiset_ensures;

/// A record lacks a cell at some referenced position.
pub struct ShortRecord {
    /// Number of cells in the record.
    pub len: usize,
}

/// Number of samples over all buckets.
pub open spec fn total(b: Seq<Seq<usize>>) -> nat
    decreases b.len(),
{
    if b.len() == 0 {
        0
    } else {
        total(b.drop_last()) + b.last().len()
    }
}

/// Records grouped by their key cells.
pub struct Groups {
    keys: Vec<Vec<String>>,
    buckets: Vec<Vec<usize>>,
    records: usize,
    skipped: usize,
    /// Key of each sample.
    log: Ghost<Seq<Seq<Seq<char>>>>,
    /// Group of each sample.
    home: Ghost<Seq<int>>,
    /// Place of each sample in its group's bucket.
    slot: Ghost<Seq<int>>,
}

proof fn lemma_total_push(b: Seq<Seq<usize>>, x: Seq<usize>)
    ensures
        total(b.push(x)) == total(b) + x.len(),
{
    assert(b.push(x).drop_last() =~= b);
}

proof fn lemma_total_update(b: Seq<Seq<usize>>, g: int, y: usize)
    requires
        0 <= g < b.len(),
    ensures
        total(b.update(g, b[g].push(y))) == total(b) + 1,
    decreases b.len(),
{
    let u = b.update(g, b[g].push(y));
    if g == b.len() - 1 {
        assert(u.drop_last() =~= b.drop_last());
    } else {
        lemma_total_update(b.drop_last(), g, y);
        assert(u.drop_last() =~= b.drop_last().update(g, b[g].push(y)));
    }
}

/// Position of the group whose key is `key`, if any.
fn find_group(keys: &Vec<Vec<String>>, key: &Vec<String>) -> (r: Option<usize>)
    ensures
        r is Some ==> r->Some_0 < keys@.len() && cells_view(keys@[r->Some_0 as int]@) == cells_view(key@),
        r is None ==> forall|g: int| 0 <= g < keys@.len() ==> cells_view(#[trigger] keys@[g]@) != cells_view(key@),
{
    let mut g: usize = 0;
    while g < keys.len()
        invariant
            g <= keys@.len(),
            forall|j: int| 0 <= j < g ==> cells_view(#[trigger] keys@[j]@) != cells_view(key@),
        decreases keys@.len() - g,
    {
        if same_cells(&keys[g], key) {
            return Some(g);
        }
        g = g + 1;
    }
    None
}

impl Groups {
    /// Key of each group, in order of first appearance.
    pub closed spec fn group_keys(&self) -> Seq<Seq<Seq<char>>> {
        self.keys@.map_values(|k: Vec<String>| cells_view(k@))
    }

    /// Sample numbers of each group, in the order of `group_keys`.
    pub closed spec fn buckets_spec(&self) -> Seq<Seq<usize>> {
        self.buckets@.map_values(|b: Vec<usize>| b@)
    }

    /// Key of each sample, in order of arrival.
    pub closed spec fn sample_keys(&self) -> Seq<Seq<Seq<char>>> {
        self.log@
    }

    /// The group that sample `i` belongs to.
    pub closed spec fn group_of(&self, i: int) -> int {
        self.home@[i]
    }

    /// Number of records taken in.
    pub closed spec fn records_spec(&self) -> nat {
        self.records as nat
    }

    /// Number of records skipped because their value cell was not numeric.
    pub closed spec fn skipped_spec(&self) -> nat {
        self.skipped as nat
    }

    /// The buckets hold each sample number exactly once, under the group of
    /// the sample's key, in order of arrival; keys of groups are distinct,
    /// no group is empty, and the counts agree.
    pub closed spec fn wf(&self) -> bool {
        let n = self.log@.len();
        let b = self.buckets_spec();
        let gk = self.group_keys();
        &&& self.keys@.len() == self.buckets@.len()
        &&& self.home@.len() == n
        &&& self.slot@.len() == n
        &&& self.records == n + self.skipped
        &&& total(b) == n
        &&& forall|g1: int, g2: int|
            0 <= g1 < gk.len() && 0 <= g2 < gk.len() && g1 != g2 ==> #[trigger] gk[g1]
                != #[trigger] gk[g2]
        &&& forall|g: int, t: int|
            0 <= g < b.len() && 0 <= t < b[g].len() ==> {
                &&& (#[trigger] b[g][t]) < n
                &&& self.home@[b[g][t] as int] == g
                &&& self.slot@[b[g][t] as int] == t
            }
        &&& forall|g: int, s: int, t: int|
            0 <= g < b.len() && 0 <= s < t < b[g].len() ==> #[trigger] b[g][s]
                < #[trigger] b[g][t]
        &&& forall|i: int|
            0 <= i < n ==> {
                &&& 0 <= #[trigger] self.home@[i] < b.len()
                &&& 0 <= self.slot@[i] < b[self.home@[i]].len()
                &&& b[self.home@[i]][self.slot@[i]] == i
                &&& self.log@[i] == gk[self.home@[i]]
            }
        &&& forall|g: int|
            0 <= g < b.len() ==> (#[trigger] b[g]).len() == self.log@.to_multiset().count(gk[g])
        &&& forall|g: int| 0 <= g < b.len() ==> (#[trigger] b[g]).len() > 0
    }

    /// `next` holds the same groups and samples as `self`.
    pub open spec fn same_groups(&self, next: &Groups) -> bool {
        &&& next.group_keys() == self.group_keys()
        &&& next.buckets_spec() == self.buckets_spec()
        &&& next.sample_keys() == self.sample_keys()
    }

    /// `next` is `self` after one more record was taken in and skipped.
    pub open spec fn skips_record(&self, next: &Groups) -> bool {
        &&& self.same_groups(next)
        &&& next.records_spec() == self.records_spec() + 1
        &&& next.skipped_spec() == self.skipped_spec() + 1
    }

    /// `next` is `self` after one more record was taken in as a sample with
    /// key `key`: the sample gets the next number and joins the group of
    /// `key`, which is created at the end if there was none.
    pub open spec fn adds_sample(&self, next: &Groups, key: Seq<Seq<char>>) -> bool {
        let n = self.sample_keys().len();
        let gk = self.group_keys();
        let b = self.buckets_spec();
        &&& next.sample_keys() == self.sample_keys().push(key)
        &&& next.records_spec() == self.records_spec() + 1
        &&& next.skipped_spec() == self.skipped_spec()
        &&& forall|g: int|
            0 <= g < gk.len() && #[trigger] gk[g] == key ==> {
                &&& next.group_keys() == gk
                &&& next.buckets_spec() == b.update(g, b[g].push(n as usize))
            }
        &&& !gk.contains(key) ==> {
            &&& next.group_keys() == gk.push(key)
            &&& next.buckets_spec() == b.push(seq![n as usize])
        }
    }

    /// Takes in one record. `numeric` says whether its value cell holds a
    /// number. A record that lacks a referenced cell is refused and changes
    /// nothing; one that is not numeric is counted as skipped; any other
    /// becomes a sample in the group of its key cells.
    pub fn ingest(&mut self, record: &Vec<String>, index: &HeaderIndex, numeric: bool) -> (r:
        Result<(), ShortRecord>)
        requires
            old(self).wf(),
            old(self).records_spec() < usize::MAX,
        ensures
            final(self).wf(),
            r is Err <==> !index.fits_spec(record@.len()),
            r is Err ==> {
                &&& r->Err_0.len == record@.len()
                &&& old(self).same_groups(final(self))
                &&& final(self).records_spec() == old(self).records_spec()
                &&& final(self).skipped_spec() == old(self).skipped_spec()
            },
            r is Ok && !numeric ==> old(self).skips_record(final(self)),
            r is Ok && numeric ==> old(self).adds_sample(
                final(self),
                index.key_spec(cells_view(record@)),
            ),
    {
        if !index.fits(record) {
            return Err(ShortRecord { len: record.len() });
        }
        if !numeric {
            self.records = self.records + 1;
            self.skipped = self.skipped + 1;
            return Ok(());
        }
        let ghost pre = *self;
        let ghost b = pre.buckets_spec();
        let ghost gk = pre.group_keys();
        let ghost lg = pre.log@;
        let key = index.key_of(record);
        let ghost k = cells_view(key@);
        let n = self.records - self.skipped;
        assert(n == lg.len());
        match find_group(&self.keys, &key) {
            Some(g) => {
                let mut bucket: Vec<usize> = Vec::new();
                self.buckets.set_and_swap(g, &mut bucket);
                bucket.push(n);
                self.buckets.set_and_swap(g, &mut bucket);
                self.log = Ghost(lg.push(k));
                self.home = Ghost(pre.home@.push(g as int));
                self.slot = Ghost(pre.slot@.push(b[g as int].len() as int));
                self.records = self.records + 1;
                proof {
                    let nb = b.update(g as int, b[g as int].push(n));
                    assert(self.buckets_spec() =~= nb);
                    assert(self.group_keys() =~= gk);
                    lemma_total_update(b, g as int, n);
                    assert(gk[g as int] == k);
                    assert forall|g1: int, t: int|
                        0 <= g1 < nb.len() && 0 <= t < nb[g1].len() implies {
                        &&& (#[trigger] nb[g1][t]) < n + 1
                        &&& self.home@[nb[g1][t] as int] == g1
                        &&& self.slot@[nb[g1][t] as int] == t
                    } by {
                        if g1 != g || t < b[g1].len() {
                            assert(nb[g1][t] == b[g1][t]);
                        }
                    }
                    assert forall|g1: int, s: int, t: int|
                        0 <= g1 < nb.len() && 0 <= s < t < nb[g1].len() implies #[trigger] nb[g1][s]
                        < #[trigger] nb[g1][t] by {
                        assert(nb[g1][s] == b[g1][s]);
                        if g1 != g || t < b[g1].len() {
                            assert(nb[g1][t] == b[g1][t]);
                        }
                    }
                    assert forall|i: int| 0 <= i < n + 1 implies {
                        &&& 0 <= #[trigger] self.home@[i] < nb.len()
                        &&& 0 <= self.slot@[i] < nb[self.home@[i]].len()
                        &&& nb[self.home@[i]][self.slot@[i]] == i
                        &&& self.log@[i] == gk[self.home@[i]]
                    } by {
                        if i < n {
                            assert(self.home@[i] == pre.home@[i]);
                            assert(self.slot@[i] == pre.slot@[i]);
                            assert(self.log@[i] == lg[i]);
                        }
                    }
                    assert forall|g1: int| 0 <= g1 < nb.len() implies (#[trigger] nb[g1]).len()
                        == self.log@.to_multiset().count(gk[g1]) by {
                        assert(lg.push(k).to_multiset() =~= lg.to_multiset().insert(k));
                        if g1 != g {
                            assert(gk[g1] != gk[g as int]);
                        }
                    }
                }
            },
            None => {
                proof {
                    assert forall|i: int| 0 <= i < lg.len() implies lg[i] != k by {
                        assert(lg[i] == gk[pre.home@[i]]);
                        assert(pre.keys@[pre.home@[i]]@ == pre.keys@[pre.home@[i]]@);
                    }
                    assert(!lg.contains(k));
                    assert forall|g1: int| 0 <= g1 < gk.len() implies #[trigger] gk[g1] != k by {
                        assert(cells_view(pre.keys@[g1]@) != k);
                    }
                    assert(!gk.contains(k));
                }
                let g = self.keys.len();
                let mut bucket: Vec<usize> = Vec::new();
                bucket.push(n);
                self.keys.push(key);
                self.buckets.push(bucket);
                self.log = Ghost(lg.push(k));
                self.home = Ghost(pre.home@.push(g as int));
                self.slot = Ghost(pre.slot@.push(0));
                self.records = self.records + 1;
                proof {
                    let nb = b.push(seq![n]);
                    let ngk = gk.push(k);
                    assert(self.buckets_spec() =~= nb);
                    assert(self.group_keys() =~= ngk);
                    lemma_total_push(b, seq![n]);
                    assert forall|g1: int, g2: int|
                        0 <= g1 < ngk.len() && 0 <= g2 < ngk.len() && g1 != g2 implies #[trigger] ngk[g1]
                        != #[trigger] ngk[g2] by {
                        if g1 < gk.len() && g2 < gk.len() {
                            assert(ngk[g1] == gk[g1]);
                            assert(ngk[g2] == gk[g2]);
                        } else if g1 < gk.len() {
                            assert(ngk[g1] == gk[g1]);
                        } else {
                            assert(ngk[g2] == gk[g2]);
                        }
                    }
                    assert forall|g1: int, t: int|
                        0 <= g1 < nb.len() && 0 <= t < nb[g1].len() implies {
                        &&& (#[trigger] nb[g1][t]) < n + 1
                        &&& self.home@[nb[g1][t] as int] == g1
                        &&& self.slot@[nb[g1][t] as int] == t
                    } by {
                        if g1 < b.len() {
                            assert(nb[g1][t] == b[g1][t]);
                        }
                    }
                    assert forall|g1: int, s: int, t: int|
                        0 <= g1 < nb.len() && 0 <= s < t < nb[g1].len() implies #[trigger] nb[g1][s]
                        < #[trigger] nb[g1][t] by {
                        assert(nb[g1] == b[g1]);
                    }
                    assert forall|i: int| 0 <= i < n + 1 implies {
                        &&& 0 <= #[trigger] self.home@[i] < nb.len()
                        &&& 0 <= self.slot@[i] < nb[self.home@[i]].len()
                        &&& nb[self.home@[i]][self.slot@[i]] == i
                        &&& self.log@[i] == ngk[self.home@[i]]
                    } by {
                        if i < n {
                            assert(self.home@[i] == pre.home@[i]);
                            assert(self.slot@[i] == pre.slot@[i]);
                            assert(self.log@[i] == lg[i]);
                            assert(nb[pre.home@[i]] == b[pre.home@[i]]);
                        }
                    }
                    assert forall|g1: int| 0 <= g1 < nb.len() implies (#[trigger] nb[g1]).len()
                        == self.log@.to_multiset().count(ngk[g1]) by {
                        assert(lg.push(k).to_multiset() =~= lg.to_multiset().insert(k));
                        if g1 < gk.len() {
                            assert(ngk[g1] == gk[g1]);
                            assert(nb[g1] == b[g1]);
                        }
                    }
                }
            },
        }
        Ok(())
    }

    /// Number of groups.
    pub fn group_count(&self) -> (r: usize)
        requires
            self.wf(),
        ensures
            r == self.group_keys().len(),
            r == self.buckets_spec().len(),
    {
        self.keys.len()
    }

    /// Key cells of group `g`.
    pub fn key(&self, g: usize) -> (r: &Vec<String>)
        requires
            self.wf(),
            g < self.group_keys().len(),
        ensures
            cells_view(r@) == self.group_keys()[g as int],
    {
        &self.keys[g]
    }

    /// Sample numbers of group `g`, in order of arrival.
    pub fn bucket(&self, g: usize) -> (r: &Vec<usize>)
        requires
            self.wf(),
            g < self.buckets_spec().len(),
        ensures
            r@ == self.buckets_spec()[g as int],
    {
        &self.buckets[g]
    }

    /// Number of records taken in.
    pub fn records(&self) -> (r: usize)
        ensures
            r == self.records_spec(),
    {
        self.records
    }

    /// Number of records skipped because their value cell was not numeric.
    pub fn skipped(&self) -> (r: usize)
        ensures
            r == self.skipped_spec(),
    {
        self.skipped
    }

    /// Number of samples, which are numbered from zero.
    pub fn samples(&self) -> (r: usize)
        requires
            self.wf(),
        ensures
            r == self.sample_keys().len(),
    {
        self.records - self.skipped
    }

    /// No groups and no records.
    pub fn new() -> (r: Groups)
        ensures
            r.wf(),
            r.group_keys().len() == 0,
            r.buckets_spec().len() == 0,
            r.sample_keys().len() == 0,
            r.records_spec() == 0,
            r.skipped_spec() == 0,
    {
        let r = Groups {
            keys: Vec::new(),
            buckets: Vec::new(),
            records: 0,
            skipped: 0,
            log: Ghost(Seq::empty()),
            home: Ghost(Seq::empty()),
            slot: Ghost(Seq::empty()),
        };
        assert(r.buckets_spec() =~= Seq::<Seq<usize>>::empty());
        r
    }
}

/// Every record taken in is either a sample of exactly one group or
/// skipped: the group sizes and the skip count add up to the records.
pub proof fn lemma_total_mass(acc: &Groups)
    requires
        acc.wf(),
    ensures
        total(acc.buckets_spec()) + acc.skipped_spec() == acc.records_spec(),
        total(acc.buckets_spec()) == acc.sample_keys().len(),
{
}

/// Each sample lies in the bucket of its group, and two samples share a
/// group exactly when their key cells are equal.
pub proof fn lemma_key_partition(acc: &Groups, i: int, j: int)
    requires
        acc.wf(),
        0 <= i < acc.sample_keys().len(),
        0 <= j < acc.sample_keys().len(),
    ensures
        0 <= acc.group_of(i) < acc.group_keys().len(),
        acc.buckets_spec()[acc.group_of(i)].contains(i as usize),
        acc.group_keys()[acc.group_of(i)] == acc.sample_keys()[i],
        (acc.sample_keys()[i] == acc.sample_keys()[j]) <==> (acc.group_of(i) == acc.group_of(j)),
{
    let b = acc.buckets_spec();
    let gi = acc.home@[i];
    let gj = acc.home@[j];
    assert(b[gi][acc.slot@[i]] == i);
    assert(acc.home@[j] == gj);
    if gi != gj {
        assert(acc.group_keys()[gi] != acc.group_keys()[gj]);
    }
}

/// A key has a group exactly when some sample has that key, and the group
/// holds as many samples as have that key.
pub proof fn lemma_group_sizes(acc: &Groups, key: Seq<Seq<char>>)
    requires
        acc.wf(),
    ensures
        acc.group_keys().contains(key) <==> acc.sample_keys().contains(key),
        forall|g: int|
            0 <= g < acc.group_keys().len() && #[trigger] acc.group_keys()[g] == key
                ==> acc.buckets_spec()[g].len() == acc.sample_keys().to_multiset().count(key),
{
    let b = acc.buckets_spec();
    let gk = acc.group_keys();
    if gk.contains(key) {
        let g = choose|g: int| 0 <= g < gk.len() && gk[g] == key;
        let i = b[g][0] as int;
        assert(acc.home@[i] == g);
        assert(acc.log@[i] == key);
    }
    if acc.log@.contains(key) {
        let i = choose|i: int| 0 <= i < acc.log@.len() && acc.log@[i] == key;
        assert(acc.log@[i] == gk[acc.home@[i]]);
    }
}

/// Taking in the same samples in another order gives the same groups, each
/// with as many samples: only the multiset of sample keys matters.
pub proof fn lemma_order_independence(a: &Groups, b: &Groups)
    requires
        a.wf(),
        b.wf(),
        a.sample_keys().to_multiset() == b.sample_keys().to_multiset(),
    ensures
        a.group_keys().to_set() == b.group_keys().to_set(),
        forall|g1: int, g2: int|
            0 <= g1 < a.group_keys().len() && 0 <= g2 < b.group_keys().len() && #[trigger] a.group_keys()[g1]
                == #[trigger] b.group_keys()[g2] ==> a.buckets_spec()[g1].len() == b.buckets_spec()[g2].len(),
{
    assert forall|key: Seq<Seq<char>>| a.group_keys().contains(key) <==> b.group_keys().contains(key) by {
        lemma_group_sizes(a, key);
        lemma_group_sizes(b, key);
    }
    assert(a.group_keys().to_set() =~= b.group_keys().to_set());
    assert forall|g1: int, g2: int|
        0 <= g1 < a.group_keys().len() && 0 <= g2 < b.group_keys().len() && #[trigger] a.group_keys()[g1]
            == #[trigger] b.group_keys()[g2] implies a.buckets_spec()[g1].len() == b.buckets_spec()[g2].len() by {
        lemma_group_sizes(a, a.group_keys()[g1]);
        lemma_group_sizes(b, b.group_keys()[g2]);
    }
}

} // verus!
