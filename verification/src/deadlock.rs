//! Deadlock avoidance bookkeeping: per-lock records of what each thread
//! holds and requests, and the banker's-algorithm safety check that
//! decides whether every thread can still finish.

use vstd::prelude::*;
use std::collections::BTreeMap;

verus! {

broadcast use vstd::std_specs::btree::group_btree_axioms;

/// The bookkeeping of one lockable resource: how many instances are
/// still available, and per thread how many are held and how many are
/// being waited for.
pub struct SourceRecord {
    /// Instances not held by any thread.
    pub available: usize,
    /// Instances each thread holds.
    pub allocation: BTreeMap<usize, usize>,
    /// Instances each thread is waiting for.
    pub need: BTreeMap<usize, usize>,
}

impl SourceRecord {
    fn new(avai: usize) -> (r: SourceRecord)
        ensures
            r.available == avai,
            r.allocation@ == Map::<usize, usize>::empty(),
            r.need@ == Map::<usize, usize>::empty(),
    {
        SourceRecord { available: avai, allocation: BTreeMap::new(), need: BTreeMap::new() }
    }
}

/// How many instances the table `m` books for thread `tid`; absent
/// threads hold zero.
pub open spec fn amount_of(m: Map<usize, usize>, tid: usize) -> int {
    if m.contains_key(tid) {
        m[tid] as int
    } else {
        0
    }
}

/// Raise the booked amount of `id` by one; an absent entry counts as
/// zero.
fn add_one_create(map: &mut BTreeMap<usize, usize>, id: usize)
    requires
        amount_of(old(map)@, id) < usize::MAX,
    ensures
        final(map)@ == old(map)@.insert(id, (amount_of(old(map)@, id) + 1) as usize),
{
    let cur = match map.get(&id) {
        Some(t) => *t,
        None => 0,
    };
    map.insert(id, cur + 1);
}

/// Lower the booked amount of `id` by one; the entry must exist and be
/// positive.
fn sub_one(map: &mut BTreeMap<usize, usize>, id: usize)
    requires
        old(map)@.contains_key(id),
        old(map)@[id] >= 1,
    ensures
        final(map)@ == old(map)@.insert(id, (old(map)@[id] - 1) as usize),
{
    let cur = match map.get(&id) {
        Some(t) => *t,
        None => 0,
    };
    map.insert(id, cur - 1);
}

/// The per-lock bookkeeping of a whole process: one record per lock id.
pub struct LockGuard {
    /// The records, keyed by lock id.
    pub record: BTreeMap<usize, SourceRecord>,
}

impl LockGuard {
    /// An empty bookkeeping with no locks registered.
    pub fn new() -> (r: LockGuard)
        ensures
            r.record@ == Map::<usize, SourceRecord>::empty(),
    {
        LockGuard { record: BTreeMap::new() }
    }

    /// Register lock `s_id` with `avai_num` instances, none held.
    pub fn add_source(&mut self, s_id: usize, avai_num: usize)
        ensures
            final(self).record@.dom() == old(self).record@.dom().insert(s_id),
            final(self).record@[s_id].available == avai_num,
            final(self).record@[s_id].allocation@ == Map::<usize, usize>::empty(),
            final(self).record@[s_id].need@ == Map::<usize, usize>::empty(),
            forall|s: usize|
                old(self).record@.contains_key(s) && s != s_id ==> final(self).record@[s] == old(
                    self,
                ).record@[s],
    {
        self.record.insert(s_id, SourceRecord::new(avai_num));
    }

    /// Drop lock `s_id`'s bookkeeping by resetting it to a fresh record
    /// with `avai_num` instances.
    pub fn delete_source(&mut self, s_id: usize, avai_num: usize)
        ensures
            final(self).record@.dom() == old(self).record@.dom().insert(s_id),
            final(self).record@[s_id].available == avai_num,
            final(self).record@[s_id].allocation@ == Map::<usize, usize>::empty(),
            final(self).record@[s_id].need@ == Map::<usize, usize>::empty(),
            forall|s: usize|
                old(self).record@.contains_key(s) && s != s_id ==> final(self).record@[s] == old(
                    self,
                ).record@[s],
    {
        self.record.insert(s_id, SourceRecord::new(avai_num));
    }

    /// Thread `tid` takes one instance of lock `s_id` it was waiting
    /// for: one less available and needed, one more held.
    pub fn get_source_one(&mut self, tid: usize, s_id: usize)
        requires
            old(self).record@.contains_key(s_id),
            old(self).record@[s_id].available >= 1,
            old(self).record@[s_id].need@.contains_key(tid),
            old(self).record@[s_id].need@[tid] >= 1,
            amount_of(old(self).record@[s_id].allocation@, tid) < usize::MAX,
        ensures
            final(self).record@.dom() == old(self).record@.dom(),
            ({
                let r0 = old(self).record@[s_id];
                let r1 = final(self).record@[s_id];
                &&& r1.available == r0.available - 1
                &&& r1.allocation@ == r0.allocation@.insert(
                    tid,
                    (amount_of(r0.allocation@, tid) + 1) as usize,
                )
                &&& r1.need@ == r0.need@.insert(tid, (r0.need@[tid] - 1) as usize)
            }),
            forall|s: usize|
                old(self).record@.contains_key(s) && s != s_id ==> final(self).record@[s] == old(
                    self,
                ).record@[s],
    {
        let mut source_record = match self.record.remove(&s_id) {
            Some(r) => r,
            None => {
                proof {
                    assert(false);
                }
                SourceRecord::new(0)
            },
        };
        source_record.available = source_record.available - 1;
        add_one_create(&mut source_record.allocation, tid);
        sub_one(&mut source_record.need, tid);
        self.record.insert(s_id, source_record);
        proof {
            assert(self.record@.dom() =~= old(self).record@.dom());
        }
    }

    /// Thread `tid` starts waiting for one instance of lock `s_id`.
    pub fn need_source_one(&mut self, tid: usize, s_id: usize)
        requires
            old(self).record@.contains_key(s_id),
            amount_of(old(self).record@[s_id].need@, tid) < usize::MAX,
        ensures
            final(self).record@.dom() == old(self).record@.dom(),
            ({
                let r0 = old(self).record@[s_id];
                let r1 = final(self).record@[s_id];
                &&& r1.available == r0.available
                &&& r1.allocation@ == r0.allocation@
                &&& r1.need@ == r0.need@.insert(tid, (amount_of(r0.need@, tid) + 1) as usize)
            }),
            forall|s: usize|
                old(self).record@.contains_key(s) && s != s_id ==> final(self).record@[s] == old(
                    self,
                ).record@[s],
    {
        let mut source_record = match self.record.remove(&s_id) {
            Some(r) => r,
            None => {
                proof {
                    assert(false);
                }
                SourceRecord::new(0)
            },
        };
        add_one_create(&mut source_record.need, tid);
        self.record.insert(s_id, source_record);
        proof {
            assert(self.record@.dom() =~= old(self).record@.dom());
        }
    }

    /// Thread `tid` stops waiting for one instance of lock `s_id`.
    pub fn dont_need_source_one(&mut self, tid: usize, s_id: usize)
        requires
            old(self).record@.contains_key(s_id),
            old(self).record@[s_id].need@.contains_key(tid),
            old(self).record@[s_id].need@[tid] >= 1,
        ensures
            final(self).record@.dom() == old(self).record@.dom(),
            ({
                let r0 = old(self).record@[s_id];
                let r1 = final(self).record@[s_id];
                &&& r1.available == r0.available
                &&& r1.allocation@ == r0.allocation@
                &&& r1.need@ == r0.need@.insert(tid, (r0.need@[tid] - 1) as usize)
            }),
            forall|s: usize|
                old(self).record@.contains_key(s) && s != s_id ==> final(self).record@[s] == old(
                    self,
                ).record@[s],
    {
        let mut source_record = match self.record.remove(&s_id) {
            Some(r) => r,
            None => {
                proof {
                    assert(false);
                }
                SourceRecord::new(0)
            },
        };
        sub_one(&mut source_record.need, tid);
        self.record.insert(s_id, source_record);
        proof {
            assert(self.record@.dom() =~= old(self).record@.dom());
        }
    }

    /// Thread `tid` hands one held instance of lock `s_id` back.
    pub fn return_source_one(&mut self, tid: usize, s_id: usize)
        requires
            old(self).record@.contains_key(s_id),
            old(self).record@[s_id].allocation@.contains_key(tid),
            old(self).record@[s_id].allocation@[tid] >= 1,
            old(self).record@[s_id].available < usize::MAX,
        ensures
            final(self).record@.dom() == old(self).record@.dom(),
            ({
                let r0 = old(self).record@[s_id];
                let r1 = final(self).record@[s_id];
                &&& r1.available == r0.available + 1
                &&& r1.allocation@ == r0.allocation@.insert(tid, (r0.allocation@[tid] - 1) as usize)
                &&& r1.need@ == r0.need@
            }),
            forall|s: usize|
                old(self).record@.contains_key(s) && s != s_id ==> final(self).record@[s] == old(
                    self,
                ).record@[s],
    {
        let mut source_record = match self.record.remove(&s_id) {
            Some(r) => r,
            None => {
                proof {
                    assert(false);
                }
                SourceRecord::new(0)
            },
        };
        sub_one(&mut source_record.allocation, tid);
        source_record.available = source_record.available + 1;
        self.record.insert(s_id, source_record);
        proof {
            assert(self.record@.dom() =~= old(self).record@.dom());
        }
    }
}

// ---------------------------------------------------------------------------
// The banker's safety condition
// ---------------------------------------------------------------------------
/// Instances of the lock described by `r` that thread `tid` holds.
pub open spec fn alloc_of(r: SourceRecord, tid: usize) -> int {
    amount_of(r.allocation@, tid)
}

/// Instances of the lock described by `r` that thread `tid` waits for.
pub open spec fn need_of(r: SourceRecord, tid: usize) -> int {
    amount_of(r.need@, tid)
}

/// Total that the threads at positions `order` of `tids` hold of the
/// lock described by `r`.
pub open spec fn prefix_alloc(r: SourceRecord, tids: Seq<usize>, order: Seq<int>) -> int
    decreases order.len(),
{
    if order.len() == 0 {
        0
    } else {
        prefix_alloc(r, tids, order.drop_last()) + alloc_of(r, tids[order.last()])
    }
}

/// The positions 0, 1, …, n-1 in order.
pub open spec fn identity_order(n: int) -> Seq<int> {
    Seq::new(n as nat, |i: int| i)
}

/// The thread at position `t` of `tids` can finish once the threads in
/// `order` have finished and returned everything they held.
pub open spec fn can_finish(
    m: Map<usize, SourceRecord>,
    tids: Seq<usize>,
    t: int,
    order: Seq<int>,
) -> bool {
    forall|s: usize|
        #[trigger] m.contains_key(s) ==> need_of(m[s], tids[t]) <= m[s].available + prefix_alloc(
            m[s],
            tids,
            order,
        )
}

/// `order` lists distinct thread positions, each able to finish after
/// its predecessors have finished.
pub open spec fn finishing_order(
    m: Map<usize, SourceRecord>,
    tids: Seq<usize>,
    order: Seq<int>,
) -> bool {
    &&& forall|k: int| 0 <= k < order.len() ==> 0 <= #[trigger] order[k] < tids.len()
    &&& forall|k1: int, k2: int| 0 <= k1 < k2 < order.len() ==> order[k1] != order[k2]
    &&& forall|k: int|
        0 <= k < order.len() ==> can_finish(m, tids, #[trigger] order[k], order.take(k))
}

/// The state is safe: the threads `tids` can all finish, one after
/// another, in some order.
pub open spec fn deadlock_free(m: Map<usize, SourceRecord>, tids: Seq<usize>) -> bool {
    exists|order: Seq<int>| order.len() == tids.len() && finishing_order(m, tids, order)
}

// ---------------------------------------------------------------------------
// The same condition over extracted rows, one per lock
// ---------------------------------------------------------------------------
/// Total of `arow` over the positions in `order`.
pub open spec fn row_prefix(arow: Seq<usize>, order: Seq<int>) -> int
    decreases order.len(),
{
    if order.len() == 0 {
        0
    } else {
        row_prefix(arow, order.drop_last()) + arow[order.last()]
    }
}

/// The row matrices have one row per lock and one column per thread.
pub open spec fn rows_wf(
    avail: Seq<usize>,
    alloc: Seq<Seq<usize>>,
    need: Seq<Seq<usize>>,
    n: int,
) -> bool {
    &&& alloc.len() == avail.len()
    &&& need.len() == avail.len()
    &&& forall|j: int| 0 <= j < avail.len() ==> (#[trigger] alloc[j]).len() == n
    &&& forall|j: int| 0 <= j < avail.len() ==> (#[trigger] need[j]).len() == n
}

/// Matrix form of [`can_finish`].
pub open spec fn mat_can_finish(
    avail: Seq<usize>,
    alloc: Seq<Seq<usize>>,
    need: Seq<Seq<usize>>,
    t: int,
    order: Seq<int>,
) -> bool {
    forall|j: int|
        0 <= j < avail.len() ==> #[trigger] need[j][t] <= avail[j] + row_prefix(alloc[j], order)
}

/// Matrix form of [`finishing_order`].
pub open spec fn mat_finishing_order(
    avail: Seq<usize>,
    alloc: Seq<Seq<usize>>,
    need: Seq<Seq<usize>>,
    n: int,
    order: Seq<int>,
) -> bool {
    &&& forall|k: int| 0 <= k < order.len() ==> 0 <= #[trigger] order[k] < n
    &&& forall|k1: int, k2: int| 0 <= k1 < k2 < order.len() ==> order[k1] != order[k2]
    &&& forall|k: int|
        0 <= k < order.len() ==> mat_can_finish(avail, alloc, need, #[trigger] order[k], order.take(k))
}

/// Matrix form of [`deadlock_free`].
pub open spec fn mat_free(
    avail: Seq<usize>,
    alloc: Seq<Seq<usize>>,
    need: Seq<Seq<usize>>,
    n: int,
) -> bool {
    exists|order: Seq<int>| order.len() == n && mat_finishing_order(avail, alloc, need, n, order)
}

// ---------------------------------------------------------------------------
// Sums over distinct positions
// ---------------------------------------------------------------------------
proof fn lemma_row_prefix_nonneg(arow: Seq<usize>, order: Seq<int>)
    requires
        forall|k: int| 0 <= k < order.len() ==> 0 <= #[trigger] order[k] < arow.len(),
    ensures
        row_prefix(arow, order) >= 0,
    decreases order.len(),
{
    if order.len() > 0 {
        lemma_row_prefix_nonneg(arow, order.drop_last());
    }
}

/// Taking one position out of a duplicate-free order takes exactly its
/// summand out of the sum.
proof fn lemma_row_prefix_remove(arow: Seq<usize>, order: Seq<int>, k: int)
    requires
        forall|i: int| 0 <= i < order.len() ==> 0 <= #[trigger] order[i] < arow.len(),
        forall|i1: int, i2: int| 0 <= i1 < i2 < order.len() ==> order[i1] != order[i2],
        0 <= k < order.len(),
    ensures
        row_prefix(arow, order) == row_prefix(arow, order.remove(k)) + arow[order[k]],
    decreases order.len(),
{
    if k == order.len() - 1 {
        assert(order.remove(k) =~= order.drop_last());
    } else {
        assert(order.remove(k).drop_last() =~= order.drop_last().remove(k));
        assert(order.remove(k).last() == order.last());
        lemma_row_prefix_remove(arow, order.drop_last(), k);
    }
}

/// A sum over some distinct positions is at most a sum over more
/// distinct positions.
proof fn lemma_row_prefix_subset(arow: Seq<usize>, o1: Seq<int>, o2: Seq<int>)
    requires
        forall|i: int| 0 <= i < o1.len() ==> 0 <= #[trigger] o1[i] < arow.len(),
        forall|i1: int, i2: int| 0 <= i1 < i2 < o1.len() ==> o1[i1] != o1[i2],
        forall|i: int| 0 <= i < o2.len() ==> 0 <= #[trigger] o2[i] < arow.len(),
        forall|i1: int, i2: int| 0 <= i1 < i2 < o2.len() ==> o2[i1] != o2[i2],
        forall|i: int| 0 <= i < o1.len() ==> o2.contains(#[trigger] o1[i]),
    ensures
        row_prefix(arow, o1) <= row_prefix(arow, o2),
    decreases o1.len(),
{
    if o1.len() == 0 {
        lemma_row_prefix_nonneg(arow, o2);
    } else {
        let t = o1.last();
        let k2 = choose|k2: int| 0 <= k2 < o2.len() && o2[k2] == t;
        lemma_row_prefix_remove(arow, o2, k2);
        let o2r = o2.remove(k2);
        assert forall|i1: int, i2: int| 0 <= i1 < i2 < o2r.len() implies o2r[i1] != o2r[i2] by {
            assert(o2r[i1] == if i1 < k2 {
                o2[i1]
            } else {
                o2[i1 + 1]
            });
            assert(o2r[i2] == if i2 < k2 {
                o2[i2]
            } else {
                o2[i2 + 1]
            });
        }
        assert forall|i: int| 0 <= i < o1.len() - 1 implies o2r.contains(
            #[trigger] o1.drop_last()[i],
        ) by {
            let v = o1[i];
            assert(v != t);
            let kk = choose|kk: int| 0 <= kk < o2.len() && o2[kk] == v;
            if kk < k2 {
                assert(o2r[kk] == v);
            } else {
                assert(kk > k2);
                assert(o2r[kk - 1] == v);
            }
        }
        lemma_row_prefix_subset(arow, o1.drop_last(), o2r);
    }
}

/// A duplicate-free sequence of positions below `n` has at most `n`
/// entries.
proof fn lemma_injective_range_len(o: Seq<int>, n: int)
    requires
        0 <= n,
        forall|k: int| 0 <= k < o.len() ==> 0 <= #[trigger] o[k] < n,
        forall|k1: int, k2: int| 0 <= k1 < k2 < o.len() ==> o[k1] != o[k2],
    ensures
        o.len() <= n,
    decreases n,
{
    if o.len() > 0 {
        assert(0 <= o[0] < n);
        if exists|k: int| 0 <= k < o.len() && o[k] == n - 1 {
            let k = choose|k: int| 0 <= k < o.len() && o[k] == n - 1;
            let o2 = o.remove(k);
            assert forall|i: int| 0 <= i < o2.len() implies 0 <= #[trigger] o2[i] < n - 1 by {
                assert(o2[i] == if i < k {
                    o[i]
                } else {
                    o[i + 1]
                });
            }
            assert forall|i1: int, i2: int| 0 <= i1 < i2 < o2.len() implies o2[i1] != o2[i2] by {
                assert(o2[i1] == if i1 < k {
                    o[i1]
                } else {
                    o[i1 + 1]
                });
                assert(o2[i2] == if i2 < k {
                    o[i2]
                } else {
                    o[i2 + 1]
                });
            }
            lemma_injective_range_len(o2, n - 1);
        } else {
            assert forall|k: int| 0 <= k < o.len() implies 0 <= #[trigger] o[k] < n - 1 by {}
            lemma_injective_range_len(o, n - 1);
        }
    }
}

/// A sequence of positions that covers every value below `n` has at
/// least `n` entries.
proof fn lemma_surjective_range_len(o: Seq<int>, n: int)
    requires
        forall|t: int| 0 <= t < n ==> o.contains(t),
    ensures
        o.len() >= n,
    decreases n,
{
    if n > 0 {
        assert(o.contains(n - 1));
        let k = choose|k: int| 0 <= k < o.len() && o[k] == n - 1;
        let o2 = o.remove(k);
        assert forall|t: int| 0 <= t < n - 1 implies o2.contains(t) by {
            assert(o.contains(t));
            let kk = choose|kk: int| 0 <= kk < o.len() && o[kk] == t;
            assert(o[kk] == t && o[k] == n - 1);
            assert(kk != k);
            if kk < k {
                assert(o2[kk] == o[kk]);
            } else {
                assert(o2[kk - 1] == o[kk]);
            }
        }
        lemma_surjective_range_len(o2, n - 1);
    }
}

/// A duplicate-free sequence of `n` positions below `n` covers every
/// one of them.
proof fn lemma_injective_range_surjective(o: Seq<int>, n: int, t: int)
    requires
        forall|k: int| 0 <= k < o.len() ==> 0 <= #[trigger] o[k] < n,
        forall|k1: int, k2: int| 0 <= k1 < k2 < o.len() ==> o[k1] != o[k2],
        o.len() == n,
        0 <= t < n,
    ensures
        o.contains(t),
{
    if !o.contains(t) {
        let o2 = Seq::new(o.len(), |k: int| if o[k] > t {
            o[k] - 1
        } else {
            o[k]
        });
        assert forall|i: int| 0 <= i < o2.len() implies 0 <= #[trigger] o2[i] < n - 1 by {
            assert(o[i] != t);
        }
        assert forall|i1: int, i2: int| 0 <= i1 < i2 < o2.len() implies o2[i1] != o2[i2] by {
            assert(o[i1] != t && o[i2] != t && o[i1] != o[i2]);
        }
        lemma_injective_range_len(o2, n - 1);
        assert(false);
    }
}

/// Before some duplicate-free position outside `gf`, there is a first
/// one: all positions before it lie in `gf`.
proof fn lemma_first_outside(full: Seq<int>, gf: Seq<int>, k: int)
    requires
        0 <= k < full.len(),
        !gf.contains(full[k]),
    ensures
        exists|k0: int|
            0 <= k0 < full.len() && !gf.contains(full[k0]) && (forall|i: int|
                0 <= i < k0 ==> gf.contains(#[trigger] full[i])),
    decreases k,
{
    if forall|i: int| 0 <= i < k ==> gf.contains(#[trigger] full[i]) {
    } else {
        let k2 = choose|k2: int| 0 <= k2 < k && !gf.contains(full[k2]);
        lemma_first_outside(full, gf, k2);
    }
}

/// Completeness of the greedy fixpoint: when no unfinished thread can
/// finish against the work the finished set freed, no order can finish
/// every thread.
proof fn lemma_greedy_fixpoint_complete(
    avail: Seq<usize>,
    alloc: Seq<Seq<usize>>,
    need: Seq<Seq<usize>>,
    n: int,
    gf: Seq<int>,
)
    requires
        rows_wf(avail, alloc, need, n),
        forall|k: int| 0 <= k < gf.len() ==> 0 <= #[trigger] gf[k] < n,
        forall|k1: int, k2: int| 0 <= k1 < k2 < gf.len() ==> gf[k1] != gf[k2],
        forall|t: int| 0 <= t < n && !gf.contains(t) ==> !mat_can_finish(avail, alloc, need, t, gf),
        exists|t: int| 0 <= t < n && !gf.contains(t),
    ensures
        !mat_free(avail, alloc, need, n),
{
    if mat_free(avail, alloc, need, n) {
        let full = choose|full: Seq<int>|
            full.len() == n && mat_finishing_order(avail, alloc, need, n, full);
        let t0 = choose|t: int| 0 <= t < n && !gf.contains(t);
        lemma_injective_range_surjective(full, n, t0);
        let kt = choose|kt: int| 0 <= kt < full.len() && full[kt] == t0;
        lemma_first_outside(full, gf, kt);
        let k0 = choose|k0: int|
            0 <= k0 < full.len() && !gf.contains(full[k0]) && (forall|i: int|
                0 <= i < k0 ==> gf.contains(#[trigger] full[i]));
        let t = full[k0];
        let pre = full.take(k0);
        assert(mat_can_finish(avail, alloc, need, t, pre));
        assert forall|i: int| 0 <= i < pre.len() implies 0 <= #[trigger] pre[i] < n by {
            assert(pre[i] == full[i]);
        }
        assert forall|i1: int, i2: int| 0 <= i1 < i2 < pre.len() implies pre[i1] != pre[i2] by {
            assert(pre[i1] == full[i1] && pre[i2] == full[i2]);
        }
        assert forall|i: int| 0 <= i < pre.len() implies gf.contains(#[trigger] pre[i]) by {
            assert(pre[i] == full[i]);
        }
        assert forall|j: int|
            0 <= j < avail.len() implies #[trigger] need[j][t] <= avail[j] + row_prefix(
            alloc[j],
            gf,
        ) by {
            assert(alloc[j].len() == n);
            lemma_row_prefix_subset(alloc[j], pre, gf);
            assert(need[j][t] <= avail[j] + row_prefix(alloc[j], pre));
        }
        assert(mat_can_finish(avail, alloc, need, t, gf));
        assert(false);
    }
}

/// The greedy banker's check over extracted rows: finish threads whose
/// needs fit into the work pool, return what they hold, and repeat;
/// report deadlock when some thread can never be finished.
fn mat_check(avail: &Vec<usize>, alloc: &Vec<Vec<usize>>, need: &Vec<Vec<usize>>, n: usize) -> (r:
    bool)
    requires
        alloc@.len() == avail@.len(),
        need@.len() == avail@.len(),
        forall|j: int| 0 <= j < avail@.len() ==> (#[trigger] alloc@[j])@.len() == n,
        forall|j: int| 0 <= j < avail@.len() ==> (#[trigger] need@[j])@.len() == n,
        forall|j: int|
            0 <= j < avail@.len() ==> #[trigger] avail@[j] + row_prefix(
                alloc@[j]@,
                identity_order(n as int),
            ) <= usize::MAX,
    ensures
        r == !mat_free(
            avail@,
            Seq::new(alloc@.len(), |j: int| alloc@[j]@),
            Seq::new(need@.len(), |j: int| need@[j]@),
            n as int,
        ),
{
    let ghost ga = Seq::new(alloc@.len(), |j: int| alloc@[j]@);
    let ghost gn = Seq::new(need@.len(), |j: int| need@[j]@);
    let m = avail.len();
    let mut work: Vec<usize> = Vec::new();
    let mut j: usize = 0;
    while j < m
        invariant
            j <= m,
            m == avail@.len(),
            work@.len() == j,
            forall|i: int| 0 <= i < j ==> work@[i] == avail@[i],
        decreases m - j,
    {
        let w = avail[j];
        work.push(w);
        j += 1;
    }
    let mut finish: Vec<bool> = Vec::new();
    let mut t: usize = 0;
    while t < n
        invariant
            t <= n,
            finish@.len() == t,
            forall|i: int| 0 <= i < t ==> !finish@[i],
        decreases n - t,
    {
        finish.push(false);
        t += 1;
    }
    let ghost mut gf: Seq<int> = Seq::empty();
    proof {
        assert forall|i: int| 0 <= i < m implies work@[i] == avail@[i] + row_prefix(ga[i], gf) by {}
    }
    loop
        invariant
            m == avail@.len(),
            alloc@.len() == m,
            need@.len() == m,
            forall|i: int| 0 <= i < m ==> (#[trigger] alloc@[i])@.len() == n,
            forall|i: int| 0 <= i < m ==> (#[trigger] need@[i])@.len() == n,
            forall|i: int|
                0 <= i < m ==> #[trigger] avail@[i] + row_prefix(
                    alloc@[i]@,
                    identity_order(n as int),
                ) <= usize::MAX,
            ga == Seq::new(alloc@.len(), |i: int| alloc@[i]@),
            gn == Seq::new(need@.len(), |i: int| need@[i]@),
            work@.len() == m,
            finish@.len() == n,
            forall|k: int| 0 <= k < gf.len() ==> 0 <= #[trigger] gf[k] < n,
            forall|k1: int, k2: int| 0 <= k1 < k2 < gf.len() ==> gf[k1] != gf[k2],
            gf.len() <= n,
            forall|k: int|
                0 <= k < gf.len() ==> mat_can_finish(avail@, ga, gn, #[trigger] gf[k], gf.take(k)),
            forall|t2: int| 0 <= t2 < n ==> (finish@[t2] <==> gf.contains(t2)),
            forall|i: int| 0 <= i < m ==> work@[i] == avail@[i] + row_prefix(ga[i], gf),
        ensures
            forall|t2: int|
                0 <= t2 < n && !gf.contains(t2) ==> !mat_can_finish(avail@, ga, gn, t2, gf),
        decreases n - gf.len(),
    {
        let ghost gf_pass = gf;
        let mut progress = false;
        let mut t: usize = 0;
        while t < n
            invariant
                t <= n,
                m == avail@.len(),
                alloc@.len() == m,
                need@.len() == m,
                forall|i: int| 0 <= i < m ==> (#[trigger] alloc@[i])@.len() == n,
                forall|i: int| 0 <= i < m ==> (#[trigger] need@[i])@.len() == n,
                forall|i: int|
                    0 <= i < m ==> #[trigger] avail@[i] + row_prefix(
                        alloc@[i]@,
                        identity_order(n as int),
                    ) <= usize::MAX,
                ga == Seq::new(alloc@.len(), |i: int| alloc@[i]@),
                gn == Seq::new(need@.len(), |i: int| need@[i]@),
                work@.len() == m,
                finish@.len() == n,
                forall|k: int| 0 <= k < gf.len() ==> 0 <= #[trigger] gf[k] < n,
                forall|k1: int, k2: int| 0 <= k1 < k2 < gf.len() ==> gf[k1] != gf[k2],
                gf.len() <= n,
                forall|k: int|
                    0 <= k < gf.len() ==> mat_can_finish(
                        avail@,
                        ga,
                        gn,
                        #[trigger] gf[k],
                        gf.take(k),
                    ),
                forall|t2: int| 0 <= t2 < n ==> (finish@[t2] <==> gf.contains(t2)),
                forall|i: int| 0 <= i < m ==> work@[i] == avail@[i] + row_prefix(ga[i], gf),
                !progress ==> gf == gf_pass,
                progress ==> gf.len() > gf_pass.len(),
                gf_pass.len() <= gf.len(),
                !progress ==> (forall|t2: int|
                    0 <= t2 < t && !gf.contains(t2) ==> !mat_can_finish(avail@, ga, gn, t2, gf)),
            decreases n - t,
        {
            if !finish[t] {
                let mut okall = true;
                let mut j: usize = 0;
                while j < m
                    invariant
                        j <= m,
                        m == avail@.len(),
                        need@.len() == m,
                        forall|i: int| 0 <= i < m ==> (#[trigger] need@[i])@.len() == n,
                        gn == Seq::new(need@.len(), |i: int| need@[i]@),
                        t < n,
                        work@.len() == m,
                        okall <==> (forall|i: int|
                            0 <= i < j ==> #[trigger] gn[i][t as int] <= work@[i]),
                    decreases m - j,
                {
                    proof {
                        assert(gn[j as int] == need@[j as int]@);
                    }
                    if need[j][t] > work[j] {
                        okall = false;
                    }
                    j += 1;
                }
                if okall {
                    finish[t] = true;
                    let mut j2: usize = 0;
                    while j2 < m
                        invariant
                            j2 <= m,
                            m == avail@.len(),
                            alloc@.len() == m,
                            forall|i: int| 0 <= i < m ==> (#[trigger] alloc@[i])@.len() == n,
                            forall|i: int|
                                0 <= i < m ==> #[trigger] avail@[i] + row_prefix(
                                    alloc@[i]@,
                                    identity_order(n as int),
                                ) <= usize::MAX,
                            ga == Seq::new(alloc@.len(), |i: int| alloc@[i]@),
                            t < n,
                            work@.len() == m,
                            forall|k: int| 0 <= k < gf.len() ==> 0 <= #[trigger] gf[k] < n,
                            forall|k1: int, k2: int|
                                0 <= k1 < k2 < gf.len() ==> gf[k1] != gf[k2],
                            !gf.contains(t as int),
                            forall|i: int|
                                j2 <= i < m ==> work@[i] == avail@[i] + row_prefix(ga[i], gf),
                            forall|i: int|
                                0 <= i < j2 ==> work@[i] == avail@[i] + row_prefix(
                                    ga[i],
                                    gf.push(t as int),
                                ),
                        decreases m - j2,
                    {
                        proof {
                            let o2 = gf.push(t as int);
                            assert(o2.drop_last() =~= gf);
                            assert forall|k: int| 0 <= k < o2.len() implies 0 <= #[trigger] o2[k]
                                < n by {}
                            assert forall|k1: int, k2: int|
                                0 <= k1 < k2 < o2.len() implies o2[k1] != o2[k2] by {
                                if k2 == o2.len() - 1 {
                                    assert(!gf.contains(o2[k1]) ==> true);
                                    if o2[k1] == t as int {
                                        assert(gf.contains(t as int));
                                    }
                                }
                            }
                            assert forall|k: int| 0 <= k < o2.len() implies identity_order(
                                n as int,
                            ).contains(#[trigger] o2[k]) by {
                                assert(identity_order(n as int)[o2[k]] == o2[k]);
                            }
                            lemma_row_prefix_subset(
                                alloc@[j2 as int]@,
                                o2,
                                identity_order(n as int),
                            );
                        }
                        let add = alloc[j2][t];
                        let w = work[j2];
                        work[j2] = w + add;
                        j2 += 1;
                    }
                    proof {
                        let o2 = gf.push(t as int);
                        assert(o2.drop_last() =~= gf);
                        assert forall|k: int|
                            0 <= k < o2.len() implies mat_can_finish(
                            avail@,
                            ga,
                            gn,
                            #[trigger] o2[k],
                            o2.take(k),
                        ) by {
                            if k < gf.len() {
                                assert(o2.take(k) =~= gf.take(k));
                                assert(o2[k] == gf[k]);
                            } else {
                                assert(o2.take(k) =~= gf);
                                assert(o2[k] == t as int);
                                assert forall|i: int|
                                    0 <= i < m implies #[trigger] gn[i][t as int] <= avail@[i]
                                    + row_prefix(ga[i], gf) by {}
                            }
                        }
                        assert forall|k1: int, k2: int|
                            0 <= k1 < k2 < o2.len() implies o2[k1] != o2[k2] by {
                            if k2 == o2.len() - 1 {
                                if o2[k1] == t as int {
                                    assert(gf.contains(t as int));
                                }
                            }
                        }
                        gf = o2;
                        lemma_injective_range_len(gf, n as int);
                        assert forall|t2: int|
                            0 <= t2 < n implies (finish@[t2] <==> gf.contains(t2)) by {
                            if t2 == t as int {
                                assert(gf[gf.len() - 1] == t as int);
                            } else {
                                if gf.contains(t2) {
                                    let k = choose|k: int|
                                        0 <= k < gf.len() && gf[k] == t2;
                                    assert(k < gf.len() - 1);
                                    assert(gf.drop_last()[k] == t2);
                                    assert(gf.drop_last() == o2.drop_last());
                                }
                                if o2.drop_last().contains(t2) {
                                    let k = choose|k: int|
                                        0 <= k < o2.drop_last().len() && o2.drop_last()[k] == t2;
                                    assert(gf[k] == t2);
                                }
                            }
                        }
                    }
                    progress = true;
                }
            }
            t += 1;
        }
        if !progress {
            break;
        }
    }
    let mut all = true;
    let mut t2: usize = 0;
    while t2 < n
        invariant
            t2 <= n,
            finish@.len() == n,
            all <==> (forall|i: int| 0 <= i < t2 ==> finish@[i]),
        decreases n - t2,
    {
        if !finish[t2] {
            all = false;
        }
        t2 += 1;
    }
    proof {
        if all {
            assert forall|tt: int| 0 <= tt < n implies gf.contains(tt) by {}
            lemma_surjective_range_len(gf, n as int);
            lemma_injective_range_len(gf, n as int);
            assert(gf.len() == n as int);
            assert(mat_finishing_order(avail@, ga, gn, n as int, gf));
            assert(mat_free(avail@, ga, gn, n as int));
        } else {
            let tt = choose|tt: int| 0 <= tt < n && !finish@[tt];
            assert(!gf.contains(tt));
            assert forall|i: int| 0 <= i < avail@.len() implies (#[trigger] ga[i]).len()
                == n as int by {
                assert(ga[i] == alloc@[i]@);
            }
            assert forall|i: int| 0 <= i < avail@.len() implies (#[trigger] gn[i]).len()
                == n as int by {
                assert(gn[i] == need@[i]@);
            }
            assert(rows_wf(avail@, ga, gn, n as int));
            lemma_greedy_fixpoint_complete(avail@, ga, gn, n as int, gf);
        }
    }
    !all
}

// ---------------------------------------------------------------------------
// Relating the rows to the record map
// ---------------------------------------------------------------------------
/// The extracted rows list exactly the records of `m`: row `j` belongs
/// to key `ks[j]`, and every key of `m` has a row.
pub open spec fn rows_match(
    m: Map<usize, SourceRecord>,
    tids: Seq<usize>,
    ks: Seq<usize>,
    avail: Seq<usize>,
    alloc: Seq<Seq<usize>>,
    need: Seq<Seq<usize>>,
) -> bool {
    &&& avail.len() == ks.len()
    &&& alloc.len() == ks.len()
    &&& need.len() == ks.len()
    &&& forall|j: int| 0 <= j < ks.len() ==> m.contains_key(#[trigger] ks[j])
    &&& forall|j: int| 0 <= j < ks.len() ==> #[trigger] avail[j] == m[ks[j]].available
    &&& forall|j: int| 0 <= j < ks.len() ==> (#[trigger] alloc[j]).len() == tids.len()
    &&& forall|j: int| 0 <= j < ks.len() ==> (#[trigger] need[j]).len() == tids.len()
    &&& forall|j: int, t: int|
        0 <= j < ks.len() && 0 <= t < tids.len() ==> #[trigger] alloc[j][t] == alloc_of(
            m[ks[j]],
            tids[t],
        )
    &&& forall|j: int, t: int|
        0 <= j < ks.len() && 0 <= t < tids.len() ==> #[trigger] need[j][t] == need_of(
            m[ks[j]],
            tids[t],
        )
    &&& forall|s: usize| #[trigger] m.contains_key(s) ==> ks.contains(s)
}

/// A row whose columns equal a record's per-thread allocations sums the
/// same way the record does.
proof fn lemma_prefix_eq(r: SourceRecord, arow: Seq<usize>, tids: Seq<usize>, order: Seq<int>)
    requires
        arow.len() == tids.len(),
        forall|t: int| 0 <= t < tids.len() ==> #[trigger] arow[t] == alloc_of(r, tids[t]),
        forall|k: int| 0 <= k < order.len() ==> 0 <= #[trigger] order[k] < tids.len(),
    ensures
        row_prefix(arow, order) == prefix_alloc(r, tids, order),
    decreases order.len(),
{
    if order.len() > 0 {
        lemma_prefix_eq(r, arow, tids, order.drop_last());
    }
}

/// The matrix-level and the map-level safety conditions agree.
proof fn lemma_free_equiv(
    m: Map<usize, SourceRecord>,
    tids: Seq<usize>,
    ks: Seq<usize>,
    avail: Seq<usize>,
    alloc: Seq<Seq<usize>>,
    need: Seq<Seq<usize>>,
)
    requires
        rows_match(m, tids, ks, avail, alloc, need),
    ensures
        mat_free(avail, alloc, need, tids.len() as int) == deadlock_free(m, tids),
{
    let n = tids.len() as int;
    assert forall|t: int, order: Seq<int>|
        0 <= t < n && (forall|k: int| 0 <= k < order.len() ==> 0 <= #[trigger] order[k] < n)
        implies (mat_can_finish(avail, alloc, need, t, order) == can_finish(
        m,
        tids,
        t,
        order,
    )) by {
        if mat_can_finish(avail, alloc, need, t, order) {
            assert forall|s: usize| #[trigger] m.contains_key(s) implies need_of(m[s], tids[t])
                <= m[s].available + prefix_alloc(m[s], tids, order) by {
                assert(ks.contains(s));
                let j = choose|j: int| 0 <= j < ks.len() && ks[j] == s;
                lemma_prefix_eq(m[s], alloc[j], tids, order);
                assert(need[j][t] <= avail[j] + row_prefix(alloc[j], order));
            }
        }
        if can_finish(m, tids, t, order) {
            assert forall|j: int|
                0 <= j < avail.len() implies #[trigger] need[j][t] <= avail[j] + row_prefix(
                alloc[j],
                order,
            ) by {
                let s = ks[j];
                assert(m.contains_key(s));
                lemma_prefix_eq(m[s], alloc[j], tids, order);
                assert(need_of(m[s], tids[t]) <= m[s].available + prefix_alloc(m[s], tids, order));
            }
        }
    }
    if mat_free(avail, alloc, need, n) {
        let order = choose|order: Seq<int>|
            order.len() == n && mat_finishing_order(avail, alloc, need, n, order);
        assert forall|k: int|
            0 <= k < order.len() implies can_finish(m, tids, #[trigger] order[k], order.take(k)) by {
            assert forall|k2: int|
                0 <= k2 < order.take(k).len() implies 0 <= #[trigger] order.take(k)[k2] < n by {
                assert(order.take(k)[k2] == order[k2]);
            }
            assert(mat_can_finish(avail, alloc, need, order[k], order.take(k)));
        }
        assert(finishing_order(m, tids, order));
        assert(deadlock_free(m, tids));
    }
    if deadlock_free(m, tids) {
        let order = choose|order: Seq<int>|
            order.len() == tids.len() && finishing_order(m, tids, order);
        assert forall|k: int|
            0 <= k < order.len() implies mat_can_finish(
            avail,
            alloc,
            need,
            #[trigger] order[k],
            order.take(k),
        ) by {
            assert forall|k2: int|
                0 <= k2 < order.take(k).len() implies 0 <= #[trigger] order.take(k)[k2] < n by {
                assert(order.take(k)[k2] == order[k2]);
            }
            assert(can_finish(m, tids, order[k], order.take(k)));
        }
        assert(mat_finishing_order(avail, alloc, need, n, order));
        assert(mat_free(avail, alloc, need, n));
    }
}

impl LockGuard {
    /// Decide with the banker's algorithm whether the threads `tids`
    /// could be deadlocked: simulate finishing any thread whose waits
    /// fit into the free instances, return what it held, and repeat.
    /// Returns `true` when some thread can never be finished this way —
    /// that is, when no order lets every thread finish.
    pub fn check_deadlock(&self, tids: &[usize]) -> (r: bool)
        requires
            forall|s: usize|
                #[trigger] self.record@.contains_key(s) ==> self.record@[s].available
                    + prefix_alloc(
                    self.record@[s],
                    tids@,
                    identity_order(tids@.len() as int),
                ) <= usize::MAX,
        ensures
            r == !deadlock_free(self.record@, tids@),
    {
        let ghost m = self.record@;
        let n = tids.len();
        let mut work: Vec<usize> = Vec::new();
        let mut allocation: Vec<Vec<usize>> = Vec::new();
        let mut need: Vec<Vec<usize>> = Vec::new();
        let ghost mut ks: Seq<usize> = Seq::empty();
        for x in it: self.record.iter()
            invariant
                n == tids@.len(),
                m == self.record@,
                work@.len() == it.index(),
                allocation@.len() == it.index(),
                need@.len() == it.index(),
                ks.len() == it.index(),
                forall|j: int|
                    0 <= j < it.seq().len() ==> m.contains_key(*#[trigger] it.seq()[j].0)
                        && m[*it.seq()[j].0] == *it.seq()[j].1,
                forall|j: int| 0 <= j < it.index() ==> ks[j] == *it.seq()[j].0,
                forall|j: int| 0 <= j < it.index() ==> m.contains_key(#[trigger] ks[j]),
                forall|j: int| 0 <= j < it.index() ==> #[trigger] work@[j] == m[ks[j]].available,
                forall|j: int| 0 <= j < it.index() ==> (#[trigger] allocation@[j])@.len() == n,
                forall|j: int| 0 <= j < it.index() ==> (#[trigger] need@[j])@.len() == n,
                forall|j: int, t: int|
                    0 <= j < it.index() && 0 <= t < n ==> #[trigger] allocation@[j]@[t]
                        == alloc_of(m[ks[j]], tids@[t]),
                forall|j: int, t: int|
                    0 <= j < it.index() && 0 <= t < n ==> #[trigger] need@[j]@[t] == need_of(
                        m[ks[j]],
                        tids@[t],
                    ),
                it.seq().len() == m.dom().len(),
                it.seq().no_duplicates(),
                forall|j1: int, j2: int| 0 <= j1 < j2 < it.index() ==> ks[j1] != ks[j2],
        {
            let source: &SourceRecord = x.1;
            proof {
                assert forall|j: int| 0 <= j < it.index() implies ks[j] != *x.0 by {
                    if ks[j] == *x.0 {
                        assert(it.seq()[j] == it.seq()[it.index() as int]);
                    }
                }
                ks = ks.push(*x.0);
            }
            work.push(source.available);
            let mut i_allocation: Vec<usize> = Vec::new();
            let mut i_need: Vec<usize> = Vec::new();
            let mut ti: usize = 0;
            while ti < n
                invariant
                    ti <= n,
                    n == tids@.len(),
                    i_allocation@.len() == ti,
                    i_need@.len() == ti,
                    forall|t: int|
                        0 <= t < ti ==> #[trigger] i_allocation@[t] == alloc_of(
                            *source,
                            tids@[t],
                        ),
                    forall|t: int|
                        0 <= t < ti ==> #[trigger] i_need@[t] == need_of(*source, tids@[t]),
                decreases n - ti,
            {
                let tid = tids[ti];
                let a = match source.allocation.get(&tid) {
                    Some(i) => *i,
                    None => 0,
                };
                let d = match source.need.get(&tid) {
                    Some(i) => *i,
                    None => 0,
                };
                i_allocation.push(a);
                i_need.push(d);
                ti += 1;
            }
            allocation.push(i_allocation);
            need.push(i_need);
        }
        let ghost ga = Seq::new(allocation@.len(), |j: int| allocation@[j]@);
        let ghost gn = Seq::new(need@.len(), |j: int| need@[j]@);
        proof {
            assert(ks.len() == m.dom().len());
            assert(ks.no_duplicates());
            assert forall|s: usize| #[trigger] m.contains_key(s) implies ks.contains(s) by {
                if !ks.contains(s) {
                    ks.unique_seq_to_set();
                    assert forall|k: usize| ks.to_set().contains(k) implies m.dom().contains(
                        k,
                    ) by {
                        let j = choose|j: int| 0 <= j < ks.len() && ks[j] == k;
                        assert(m.contains_key(ks[j]));
                    }
                    assert(ks.to_set().subset_of(m.dom()));
                    assert(!ks.to_set().contains(s));
                    ks.to_set().lemma_subset_not_in_lt(m.dom(), s);
                    assert(false);
                }
            }
            assert forall|j: int, t: int|
                0 <= j < ks.len() && 0 <= t < tids@.len() implies #[trigger] ga[j][t] == alloc_of(
                m[ks[j]],
                tids@[t],
            ) by {
                assert(ga[j] == allocation@[j]@);
            }
            assert forall|j: int, t: int|
                0 <= j < ks.len() && 0 <= t < tids@.len() implies #[trigger] gn[j][t] == need_of(
                m[ks[j]],
                tids@[t],
            ) by {
                assert(gn[j] == need@[j]@);
            }
            assert forall|j: int| 0 <= j < ks.len() implies (#[trigger] ga[j]).len()
                == tids@.len() by {
                assert(ga[j] == allocation@[j]@);
            }
            assert forall|j: int| 0 <= j < ks.len() implies (#[trigger] gn[j]).len()
                == tids@.len() by {
                assert(gn[j] == need@[j]@);
            }
            assert(rows_match(m, tids@, ks, work@, ga, gn));
            assert forall|j: int|
                0 <= j < work@.len() implies #[trigger] work@[j] + row_prefix(
                allocation@[j]@,
                identity_order(n as int),
            ) <= usize::MAX by {
                assert forall|k: int|
                    0 <= k < identity_order(n as int).len() implies 0 <= #[trigger] identity_order(
                    n as int,
                )[k] < tids@.len() by {}
                lemma_prefix_eq(m[ks[j]], ga[j], tids@, identity_order(n as int));
                assert(m.contains_key(ks[j]));
            }
        }
        let r = mat_check(&work, &allocation, &need, n);
        proof {
            lemma_free_equiv(m, tids@, ks, work@, ga, gn);
        }
        r
    }
}

} // verus!
