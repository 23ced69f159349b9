//! Rotation-set partitioning: folds the canonical query list into an ordered
//! per-commitment rotation map, then groups commitments by exact equality of
//! their rotation collections. Set creation order and per-set commitment order
//! follow first-encounter order, which fixes all downstream addresses.

use vstd::prelude::*;
use crate::expr::{EcPoint, EcPointV, ScalarExpr};
use crate::query::{Query, QueryV};

verus! {

/// Structural violations of the generator's input; each is fatal at
/// generation time, with no partial output.
#[derive(Clone, Copy, Debug, PartialEq, Eq, Structural)]
pub enum PcsError {
    /// A commitment was queried twice at the same rotation.
    DuplicateQuery,
    /// No query at all, so the rotation superset is empty.
    EmptySuperset,
    /// A rotation set (or the whole list of sets) is empty.
    EmptyRotationSet,
    /// A rotation set covers the whole superset, leaving no complement to
    /// seed the shared batch inversion with.
    EmptyDiffs,
}

/// Ascending order with no repetitions: the canonical shape of every rotation
/// collection in this crate.
pub open spec fn sorted_unique(s: Seq<i32>) -> bool {
    forall|i: int, j: int| 0 <= i < j < s.len() ==> s[i] < s[j]
}

/// Index at which `x` belongs in the sorted sequence `s`: the number of
/// elements smaller than `x`.
pub open spec fn insert_pos(s: Seq<i32>, x: i32) -> int
    decreases s.len(),
{
    if s.len() == 0 {
        0
    } else if s[0] < x {
        1 + insert_pos(s.drop_first(), x)
    } else {
        0
    }
}

/// Sorted-set insertion: keeps `s` when `x` is already present, otherwise
/// places `x` at its ordered position.
pub open spec fn set_insert(s: Seq<i32>, x: i32) -> Seq<i32> {
    if s.contains(x) {
        s
    } else {
        s.insert(insert_pos(s, x), x)
    }
}

pub proof fn lemma_insert_pos_bounds(s: Seq<i32>, x: i32)
    requires
        sorted_unique(s),
    ensures
        0 <= insert_pos(s, x) <= s.len(),
        forall|i: int| 0 <= i < insert_pos(s, x) ==> s[i] < x,
        forall|i: int| insert_pos(s, x) <= i < s.len() ==> s[i] >= x,
    decreases s.len(),
{
    if s.len() > 0 && s[0] < x {
        assert(sorted_unique(s.drop_first()));
        lemma_insert_pos_bounds(s.drop_first(), x);
        assert forall|i: int| 0 <= i < insert_pos(s, x) implies s[i] < x by {
            if i > 0 {
                assert(s.drop_first()[i - 1] == s[i]);
            }
        }
        assert forall|i: int| insert_pos(s, x) <= i < s.len() implies s[i] >= x by {
            assert(s.drop_first()[i - 1] == s[i]);
        }
    }
}

pub proof fn lemma_insert_pos_unique(s: Seq<i32>, x: i32, p: int)
    requires
        sorted_unique(s),
        0 <= p <= s.len(),
        forall|i: int| 0 <= i < p ==> s[i] < x,
        p < s.len() ==> s[p] >= x,
    ensures
        p == insert_pos(s, x),
{
    lemma_insert_pos_bounds(s, x);
    let q = insert_pos(s, x);
    if p < q {
        assert(s[p] < x);
        assert(s[p] >= x);
    }
    if q < p {
        assert(s[q] < x);
        assert(s[q] >= x);
    }
}

/// `x` sits in a sorted sequence exactly at its insertion position.
pub proof fn lemma_sorted_contains_at_pos(s: Seq<i32>, x: i32)
    requires
        sorted_unique(s),
    ensures
        s.contains(x) <==> (insert_pos(s, x) < s.len() && s[insert_pos(s, x)] == x),
{
    lemma_insert_pos_bounds(s, x);
    let p = insert_pos(s, x);
    if s.contains(x) {
        let w = choose|w: int| 0 <= w < s.len() && s[w] == x;
        if w < p {
            assert(s[w] < x);
        }
        if w > p {
            assert(s[p] >= x);
            assert(s[p] < s[w]);
        }
        assert(s[p] == x);
    }
}

pub proof fn lemma_set_insert_props(s: Seq<i32>, x: i32)
    requires
        sorted_unique(s),
    ensures
        sorted_unique(set_insert(s, x)),
        forall|y: i32| set_insert(s, x).contains(y) <==> (s.contains(y) || y == x),
        s.len() <= set_insert(s, x).len() <= s.len() + 1,
        !s.contains(x) ==> set_insert(s, x).len() == s.len() + 1,
{
    lemma_insert_pos_bounds(s, x);
    if s.contains(x) {
        assert(set_insert(s, x).contains(x));
    } else {
        let p = insert_pos(s, x);
        let t = s.insert(p, x);
        assert forall|i: int| 0 <= i < t.len() implies #[trigger] t[i] == (if i < p {
            s[i]
        } else if i == p {
            x
        } else {
            s[i - 1]
        }) by {}
        assert forall|i: int, j: int| 0 <= i < j < t.len() implies t[i] < t[j] by {
            if i < p && j > p {
                assert(s[j - 1] >= x);
                assert(s[j - 1] != x) by {
                    if s[j - 1] == x {
                        assert(s.contains(x));
                    }
                }
            }
            if i == p && j > p {
                assert(s[j - 1] >= x);
                assert(s[j - 1] != x) by {
                    if s[j - 1] == x {
                        assert(s.contains(x));
                    }
                }
            }
            if i < p && j == p {
                assert(s[i] < x);
            }
        }
        assert forall|y: i32| t.contains(y) implies (s.contains(y) || y == x) by {
            let w = choose|w: int| 0 <= w < t.len() && t[w] == y;
            if w < p {
                assert(s[w] == y);
            } else if w > p {
                assert(s[w - 1] == y);
            }
        }
        assert forall|y: i32| s.contains(y) implies t.contains(y) by {
            let w = choose|w: int| 0 <= w < s.len() && s[w] == y;
            if w < p {
                assert(t[w] == y);
            } else {
                assert(t[w + 1] == y);
            }
        }
        assert(t.contains(x)) by {
            assert(t[p] == x);
        }
    }
}

/// Builds `set_insert(v@, x)` in place: scans for the ordered position of `x`
/// and inserts it there unless it is already present.
pub fn insert_sorted(v: &mut Vec<i32>, x: i32)
    requires
        sorted_unique(old(v)@),
        old(v)@.len() < usize::MAX,
    ensures
        final(v)@ == set_insert(old(v)@, x),
{
    proof {
        lemma_insert_pos_bounds(old(v)@, x);
        lemma_sorted_contains_at_pos(old(v)@, x);
    }
    let mut p: usize = 0;
    while p < v.len() && v[p] < x
        invariant
            0 <= p <= v@.len(),
            v@ == old(v)@,
            forall|i: int| 0 <= i < p ==> v@[i] < x,
        decreases v@.len() - p,
    {
        p += 1;
    }
    proof {
        lemma_insert_pos_unique(v@, x, p as int);
    }
    if p < v.len() && v[p] == x {
        return ;
    }
    v.insert(p, x);
}

/// Mathematical image of one per-commitment entry of the grouping fold: the
/// commitment, its rotations in ascending order, and the evaluation
/// expressions keyed by rotation in the same order.
pub ghost struct CommEntryV {
    pub comm: EcPointV,
    pub rots: Seq<i32>,
    pub evals: Seq<Seq<char>>,
}

/// One per-commitment entry of the grouping fold.
struct CommEntry {
    comm: EcPoint,
    rots: Vec<i32>,
    evals: Vec<ScalarExpr>,
}

impl View for CommEntry {
    type V = CommEntryV;

    closed spec fn view(&self) -> CommEntryV {
        CommEntryV { comm: self.comm@, rots: self.rots@, evals: self.evals.deep_view() }
    }
}

impl DeepView for CommEntry {
    type V = CommEntryV;

    open spec fn deep_view(&self) -> CommEntryV {
        self@
    }
}

/// Index of the first entry holding commitment `c`, or -1.
pub open spec fn find_comm(entries: Seq<CommEntryV>, c: EcPointV) -> int
    decreases entries.len(),
{
    if entries.len() == 0 {
        -1
    } else if entries[0].comm == c {
        0
    } else if find_comm(entries.drop_first(), c) < 0 {
        -1
    } else {
        1 + find_comm(entries.drop_first(), c)
    }
}

pub proof fn lemma_find_comm_props(entries: Seq<CommEntryV>, c: EcPointV)
    ensures
        -1 <= find_comm(entries, c) < entries.len(),
        find_comm(entries, c) >= 0 ==> entries[find_comm(entries, c)].comm == c,
        forall|i: int|
            0 <= i < entries.len() && (i < find_comm(entries, c) || find_comm(entries, c) < 0)
                ==> (#[trigger] entries[i]).comm != c,
    decreases entries.len(),
{
    if entries.len() > 0 && entries[0].comm != c {
        lemma_find_comm_props(entries.drop_first(), c);
        assert forall|i: int|
            0 <= i < entries.len() && (i < find_comm(entries, c) || find_comm(entries, c) < 0)
            implies (#[trigger] entries[i]).comm != c by {
            if i > 0 {
                assert(entries.drop_first()[i - 1] == entries[i]);
            }
        }
    }
}

/// Adds one (rotation, evaluation) pair to an entry, keyed in ascending
/// rotation order; a rotation already present leaves the entry unchanged
/// (the caller treats that case as a fatal duplicate).
pub open spec fn entry_step(e: CommEntryV, rot: i32, eval: Seq<char>) -> CommEntryV {
    if e.rots.contains(rot) {
        e
    } else {
        let p = insert_pos(e.rots, rot);
        CommEntryV { comm: e.comm, rots: e.rots.insert(p, rot), evals: e.evals.insert(p, eval) }
    }
}

/// Folds one query into the ordered per-commitment map: a known commitment is
/// updated in place, a new one is appended, preserving first-seen order.
pub open spec fn group_step(acc: Seq<CommEntryV>, q: QueryV) -> Seq<CommEntryV> {
    let idx = find_comm(acc, q.comm);
    if idx < 0 {
        acc.push(CommEntryV { comm: q.comm, rots: seq![q.rotation], evals: seq![q.eval] })
    } else {
        acc.update(idx, entry_step(acc[idx], q.rotation, q.eval))
    }
}

pub open spec fn group_upto(qs: Seq<QueryV>, n: int) -> Seq<CommEntryV>
    decreases n,
{
    if n <= 0 {
        Seq::empty()
    } else {
        group_step(group_upto(qs, n - 1), qs[n - 1])
    }
}

/// The ordered per-commitment rotation map of the whole query list.
pub open spec fn spec_entries(qs: Seq<QueryV>) -> Seq<CommEntryV> {
    group_upto(qs, qs.len() as int)
}

/// Some commitment is queried twice at one rotation: the fatal input fault of
/// the partitioner.
pub open spec fn duplicate_query(qs: Seq<QueryV>) -> bool {
    exists|k: int, l: int|
        0 <= l < k < qs.len() && qs[l].comm == qs[k].comm && qs[l].rotation == qs[k].rotation
}

/// A commitment equal to `c` occurs among the first `n` queries.
pub open spec fn comm_seen(qs: Seq<QueryV>, n: int, c: EcPointV) -> bool {
    exists|k: int| 0 <= k < n && (#[trigger] qs[k]).comm == c
}

/// Commitment `c` is queried at rotation `r` among the first `n` queries.
pub open spec fn queried(qs: Seq<QueryV>, n: int, c: EcPointV, r: i32) -> bool {
    exists|k: int| 0 <= k < n && (#[trigger] qs[k]).comm == c && qs[k].rotation == r
}

pub open spec fn entry_wf(e: CommEntryV) -> bool {
    &&& sorted_unique(e.rots)
    &&& e.evals.len() == e.rots.len()
    &&& e.rots.len() >= 1
}

pub open spec fn entries_wf(acc: Seq<CommEntryV>) -> bool {
    &&& forall|i: int| 0 <= i < acc.len() ==> entry_wf(#[trigger] acc[i])
    &&& forall|i: int, j: int| 0 <= i < j < acc.len() ==> acc[i].comm != acc[j].comm
}

/// The grouping fold records exactly the queried (commitment, rotation)
/// pairs of the prefix it has consumed.
pub open spec fn group_faithful(qs: Seq<QueryV>, n: int, acc: Seq<CommEntryV>) -> bool {
    &&& forall|i: int, r: i32|
        0 <= i < acc.len() ==> ((#[trigger] acc[i].rots.contains(r)) <==> queried(
            qs,
            n,
            acc[i].comm,
            r,
        ))
    &&& forall|c: EcPointV|
        #[trigger] comm_seen(qs, n, c) <==> exists|i: int|
            0 <= i < acc.len() && (#[trigger] acc[i]).comm == c
}

/// Total rotation count over all entries; bounds the coefficient region of
/// the layout.
pub open spec fn sum_rots(acc: Seq<CommEntryV>) -> int
    decreases acc.len(),
{
    if acc.len() == 0 {
        0
    } else {
        sum_rots(acc.drop_last()) + acc.last().rots.len()
    }
}

pub proof fn lemma_sum_rots_update(acc: Seq<CommEntryV>, idx: int, e: CommEntryV)
    requires
        0 <= idx < acc.len(),
    ensures
        sum_rots(acc.update(idx, e)) == sum_rots(acc) - acc[idx].rots.len() + e.rots.len(),
    decreases acc.len(),
{
    let upd = acc.update(idx, e);
    if idx == acc.len() - 1 {
        assert(upd.drop_last() =~= acc.drop_last());
        assert(upd.last() == e);
    } else {
        assert(upd.drop_last() =~= acc.drop_last().update(idx, e));
        assert(upd.last() == acc.last());
        lemma_sum_rots_update(acc.drop_last(), idx, e);
    }
}

pub proof fn lemma_sum_rots_push(acc: Seq<CommEntryV>, e: CommEntryV)
    ensures
        sum_rots(acc.push(e)) == sum_rots(acc) + e.rots.len(),
{
    assert(acc.push(e).drop_last() =~= acc);
}
pub proof fn lemma_group_upto_props(qs: Seq<QueryV>, n: int)
    requires
        0 <= n <= qs.len(),
    ensures
        entries_wf(group_upto(qs, n)),
        group_faithful(qs, n, group_upto(qs, n)),
        group_upto(qs, n).len() <= n,
        sum_rots(group_upto(qs, n)) <= n,
    decreases n,
{
    if n > 0 {
        lemma_group_upto_props(qs, n - 1);
        let acc0 = group_upto(qs, n - 1);
        let q = qs[n - 1];
        let idx = find_comm(acc0, q.comm);
        let acc = group_upto(qs, n);
        lemma_find_comm_props(acc0, q.comm);
        if idx < 0 {
            let e = CommEntryV { comm: q.comm, rots: seq![q.rotation], evals: seq![q.eval] };
            assert(acc == acc0.push(e));
            lemma_sum_rots_push(acc0, e);
            assert(entry_wf(e));
            assert(entries_wf(acc));
            assert forall|i: int, r: i32| 0 <= i < acc.len() implies ((#[trigger]
            acc[i].rots.contains(r)) <==> queried(qs, n, acc[i].comm, r)) by {
                if i < acc0.len() {
                    assert(acc[i] == acc0[i]);
                    assert(acc[i].rots.contains(r) <==> queried(qs, n - 1, acc[i].comm, r));
                    if queried(qs, n, acc[i].comm, r) && !queried(qs, n - 1, acc[i].comm, r) {
                        let k = choose|k: int|
                            0 <= k < n && (#[trigger] qs[k]).comm == acc[i].comm
                                && qs[k].rotation == r;
                        assert(k == n - 1);
                        assert(acc0[i].comm != q.comm);
                        assert(false);
                    }
                } else {
                    assert(acc[i] == e);
                    if e.rots.contains(r) {
                        assert(e.rots[0] == q.rotation);
                        assert(r == q.rotation);
                        assert(qs[n - 1].comm == e.comm && qs[n - 1].rotation == r);
                        assert(queried(qs, n, e.comm, r));
                    }
                    if queried(qs, n, e.comm, r) {
                        let k = choose|k: int|
                            0 <= k < n && (#[trigger] qs[k]).comm == e.comm && qs[k].rotation
                                == r;
                        if k < n - 1 {
                            assert(comm_seen(qs, n - 1, e.comm));
                            assert(false);
                        }
                        assert(e.rots[0] == r);
                        assert(e.rots.contains(r));
                    }
                }
            }
            assert forall|c: EcPointV| #[trigger] comm_seen(qs, n, c) implies exists|i: int|
                0 <= i < acc.len() && (#[trigger] acc[i]).comm == c by {
                let k = choose|k: int| 0 <= k < n && (#[trigger] qs[k]).comm == c;
                if k < n - 1 {
                    assert(comm_seen(qs, n - 1, c));
                    let i = choose|i: int| 0 <= i < acc0.len() && (#[trigger] acc0[i]).comm == c;
                    assert(acc[i].comm == c);
                } else {
                    assert(acc[acc0.len() as int].comm == c);
                }
            }
            assert forall|c: EcPointV|
                (exists|i: int| 0 <= i < acc.len() && (#[trigger] acc[i]).comm == c) implies
                #[trigger] comm_seen(qs, n, c) by {
                let i = choose|i: int| 0 <= i < acc.len() && (#[trigger] acc[i]).comm == c;
                if i < acc0.len() {
                    assert(comm_seen(qs, n - 1, c));
                    let k = choose|k: int| 0 <= k < n - 1 && (#[trigger] qs[k]).comm == c;
                    assert(qs[k].comm == c);
                } else {
                    assert(qs[n - 1].comm == c);
                }
            }
        } else {
            let e0 = acc0[idx];
            let e1 = entry_step(e0, q.rotation, q.eval);
            assert(acc == acc0.update(idx, e1));
            lemma_sum_rots_update(acc0, idx, e1);
            if !e0.rots.contains(q.rotation) {
                lemma_insert_pos_bounds(e0.rots, q.rotation);
                assert(e1.rots == set_insert(e0.rots, q.rotation));
                lemma_set_insert_props(e0.rots, q.rotation);
            }
            assert(entry_wf(e1));
            assert(entries_wf(acc)) by {
                assert(forall|i: int|
                    0 <= i < acc.len() && i != idx ==> acc[i] == acc0[i]);
            }
            assert forall|i: int, r: i32| 0 <= i < acc.len() implies ((#[trigger]
            acc[i].rots.contains(r)) <==> queried(qs, n, acc[i].comm, r)) by {
                if i != idx {
                    assert(acc[i] == acc0[i]);
                    assert(acc0[i].comm != q.comm);
                    if queried(qs, n, acc[i].comm, r) && !queried(qs, n - 1, acc[i].comm, r) {
                        let k = choose|k: int|
                            0 <= k < n && (#[trigger] qs[k]).comm == acc[i].comm
                                && qs[k].rotation == r;
                        assert(k == n - 1);
                        assert(false);
                    }
                } else {
                    assert(acc[i] == e1);
                    assert(e1.comm == q.comm);
                    if !e0.rots.contains(q.rotation) {
                        lemma_set_insert_props(e0.rots, q.rotation);
                    }
                    assert forall|rr: i32| e1.rots.contains(rr) <==> (e0.rots.contains(rr)
                        || rr == q.rotation) by {
                        if e0.rots.contains(q.rotation) {
                            assert(e1 == e0);
                        }
                    }
                    if e1.rots.contains(r) {
                        if e0.rots.contains(r) {
                            assert(queried(qs, n - 1, e0.comm, r));
                            let k = choose|k: int|
                                0 <= k < n - 1 && (#[trigger] qs[k]).comm == e0.comm
                                    && qs[k].rotation == r;
                            assert(queried(qs, n, e1.comm, r));
                        } else {
                            assert(r == q.rotation);
                            assert(qs[n - 1].comm == e1.comm && qs[n - 1].rotation == r);
                            assert(queried(qs, n, e1.comm, r));
                        }
                    }
                    if queried(qs, n, e1.comm, r) {
                        let k = choose|k: int|
                            0 <= k < n && (#[trigger] qs[k]).comm == e1.comm && qs[k].rotation
                                == r;
                        if k < n - 1 {
                            assert(queried(qs, n - 1, e0.comm, r));
                            assert(e0.rots.contains(r));
                        } else {
                            assert(r == q.rotation);
                        }
                        assert(e1.rots.contains(r));
                    }
                }
            }
            assert forall|c: EcPointV| #[trigger] comm_seen(qs, n, c) implies exists|i: int|
                0 <= i < acc.len() && (#[trigger] acc[i]).comm == c by {
                let k = choose|k: int| 0 <= k < n && (#[trigger] qs[k]).comm == c;
                if k < n - 1 {
                    assert(comm_seen(qs, n - 1, c));
                    let i = choose|i: int| 0 <= i < acc0.len() && (#[trigger] acc0[i]).comm == c;
                    assert(acc[i].comm == c);
                } else {
                    assert(acc[idx].comm == c);
                }
            }
            assert forall|c: EcPointV|
                (exists|i: int| 0 <= i < acc.len() && (#[trigger] acc[i]).comm == c) implies
                #[trigger] comm_seen(qs, n, c) by {
                let i = choose|i: int| 0 <= i < acc.len() && (#[trigger] acc[i]).comm == c;
                assert(acc0[i].comm == c);
                assert(comm_seen(qs, n - 1, c));
                let k = choose|k: int| 0 <= k < n - 1 && (#[trigger] qs[k]).comm == c;
                assert(qs[k].comm == c);
            }
        }
    }
}
/// Mathematical image of a rotation set.
pub ghost struct RotationSetV {
    pub rotations: Seq<i32>,
    pub diffs: Seq<i32>,
    pub comms: Seq<EcPointV>,
    pub evals: Seq<Seq<Seq<char>>>,
}

/// An ordered set of rotations, its complement within the superset, the
/// ordered deduplicated commitments sharing exactly that rotation collection,
/// and, per commitment, the evaluation expressions keyed by rotation in
/// ascending rotation order.
#[derive(Debug, PartialEq, Eq)]
pub struct RotationSet {
    rotations: Vec<i32>,
    diffs: Vec<i32>,
    comms: Vec<EcPoint>,
    evals: Vec<Vec<ScalarExpr>>,
}

impl View for RotationSet {
    type V = RotationSetV;

    closed spec fn view(&self) -> RotationSetV {
        RotationSetV {
            rotations: self.rotations@,
            diffs: self.diffs@,
            comms: self.comms.deep_view(),
            evals: self.evals.deep_view(),
        }
    }
}

impl DeepView for RotationSet {
    type V = RotationSetV;

    open spec fn deep_view(&self) -> RotationSetV {
        self@
    }
}

impl RotationSet {
    pub fn rotations(&self) -> (r: &Vec<i32>)
        ensures
            r@ == self@.rotations,
    {
        &self.rotations
    }

    pub fn diffs(&self) -> (r: &Vec<i32>)
        ensures
            r@ == self@.diffs,
    {
        &self.diffs
    }

    pub fn comms(&self) -> (r: &Vec<EcPoint>)
        ensures
            r.deep_view() == self@.comms,
    {
        &self.comms
    }

    pub fn evals(&self) -> (r: &Vec<Vec<ScalarExpr>>)
        ensures
            r.deep_view() == self@.evals,
    {
        &self.evals
    }
}

/// Index of the first set whose rotation collection equals `rots`, or -1.
pub open spec fn find_set(sets: Seq<RotationSetV>, rots: Seq<i32>) -> int
    decreases sets.len(),
{
    if sets.len() == 0 {
        -1
    } else if sets[0].rotations == rots {
        0
    } else if find_set(sets.drop_first(), rots) < 0 {
        -1
    } else {
        1 + find_set(sets.drop_first(), rots)
    }
}

pub proof fn lemma_find_set_props(sets: Seq<RotationSetV>, rots: Seq<i32>)
    ensures
        -1 <= find_set(sets, rots) < sets.len(),
        find_set(sets, rots) >= 0 ==> sets[find_set(sets, rots)].rotations == rots,
        forall|i: int|
            0 <= i < sets.len() && (i < find_set(sets, rots) || find_set(sets, rots) < 0)
                ==> (#[trigger] sets[i]).rotations != rots,
    decreases sets.len(),
{
    if sets.len() > 0 && sets[0].rotations != rots {
        lemma_find_set_props(sets.drop_first(), rots);
        assert forall|i: int|
            0 <= i < sets.len() && (i < find_set(sets, rots) || find_set(sets, rots) < 0)
            implies (#[trigger] sets[i]).rotations != rots by {
            if i > 0 {
                assert(sets.drop_first()[i - 1] == sets[i]);
            }
        }
    }
}

/// Complement of `rots` within the superset, in superset (ascending) order.
pub open spec fn diffs_of(superset: Seq<i32>, rots: Seq<i32>) -> Seq<i32> {
    superset.filter(|r: i32| !rots.contains(r))
}

/// Folds one per-commitment entry into the rotation sets: an entry whose
/// rotation collection matches an existing set joins it (unless its commitment
/// is already a member); otherwise it opens a new set, whose `diffs` are the
/// superset rotations it lacks.
pub open spec fn sets_step(acc: Seq<RotationSetV>, superset: Seq<i32>, e: CommEntryV) -> Seq<
    RotationSetV,
> {
    let idx = find_set(acc, e.rots);
    if idx < 0 {
        acc.push(
            RotationSetV {
                rotations: e.rots,
                diffs: diffs_of(superset, e.rots),
                comms: seq![e.comm],
                evals: seq![e.evals],
            },
        )
    } else if acc[idx].comms.contains(e.comm) {
        acc
    } else {
        acc.update(
            idx,
            RotationSetV {
                rotations: acc[idx].rotations,
                diffs: acc[idx].diffs,
                comms: acc[idx].comms.push(e.comm),
                evals: acc[idx].evals.push(e.evals),
            },
        )
    }
}

pub open spec fn sets_upto(entries: Seq<CommEntryV>, superset: Seq<i32>, n: int) -> Seq<
    RotationSetV,
>
    decreases n,
{
    if n <= 0 {
        Seq::empty()
    } else {
        sets_step(sets_upto(entries, superset, n - 1), superset, entries[n - 1])
    }
}

/// The rotation sets of a query list: group by commitment, then fold the
/// entries into sets in first-encounter order.
pub open spec fn spec_rotation_sets(qs: Seq<QueryV>) -> Seq<RotationSetV> {
    sets_upto(spec_entries(qs), superset_of(qs), spec_entries(qs).len() as int)
}

pub open spec fn set_wf(superset: Seq<i32>, s: RotationSetV) -> bool {
    &&& sorted_unique(s.rotations)
    &&& s.rotations.len() >= 1
    &&& s.diffs == diffs_of(superset, s.rotations)
    &&& s.comms.len() == s.evals.len()
    &&& s.comms.len() >= 1
    &&& forall|p: int|
        0 <= p < s.evals.len() ==> (#[trigger] s.evals[p]).len() == s.rotations.len()
    &&& forall|p: int, q: int| 0 <= p < q < s.comms.len() ==> s.comms[p] != s.comms[q]
}

pub open spec fn sets_wf(superset: Seq<i32>, sets: Seq<RotationSetV>) -> bool {
    &&& forall|i: int| 0 <= i < sets.len() ==> set_wf(superset, #[trigger] sets[i])
    &&& forall|i: int, j: int| 0 <= i < j < sets.len() ==> sets[i].rotations != sets[j].rotations
}

pub open spec fn set_has_comm(s: RotationSetV, c: EcPointV) -> bool {
    s.comms.contains(c)
}

/// `c` is the commitment of one of the first `n` entries.
pub open spec fn comm_among(entries: Seq<CommEntryV>, n: int, c: EcPointV) -> bool {
    exists|k: int| 0 <= k < n && (#[trigger] entries[k]).comm == c
}

/// `c` is a member of some rotation set.
pub open spec fn comm_in_sets(sets: Seq<RotationSetV>, c: EcPointV) -> bool {
    exists|i: int| 0 <= i < sets.len() && set_has_comm(#[trigger] sets[i], c)
}

/// Every commitment of the first `n` entries sits in exactly one set, and
/// sets hold no other commitments.
pub open spec fn sets_faithful(entries: Seq<CommEntryV>, n: int, sets: Seq<RotationSetV>) -> bool {
    &&& forall|c: EcPointV| #[trigger] comm_among(entries, n, c) <==> comm_in_sets(sets, c)
    &&& forall|i: int, j: int, c: EcPointV|
        0 <= i < sets.len() && 0 <= j < sets.len() && i != j && #[trigger] set_has_comm(
            sets[i],
            c,
        ) ==> !(#[trigger] set_has_comm(sets[j], c))
}

/// Every set's rotation collection is one of the entries' rotation
/// collections.
pub open spec fn sets_rots_from(entries: Seq<CommEntryV>, n: int, sets: Seq<RotationSetV>) -> bool {
    forall|i: int|
        0 <= i < sets.len() ==> exists|k: int|
            0 <= k < n && (#[trigger] entries[k]).rots == (#[trigger] sets[i]).rotations
}

/// Total rotation count over all sets; sizes the coefficient arrays and the
/// first batch-inversion region.
pub open spec fn sum_sizes(sets: Seq<RotationSetV>) -> int
    decreases sets.len(),
{
    if sets.len() == 0 {
        0
    } else {
        sum_sizes(sets.drop_last()) + sets.last().rotations.len()
    }
}

pub proof fn lemma_sum_sizes_update_same_rots(sets: Seq<RotationSetV>, idx: int, s: RotationSetV)
    requires
        0 <= idx < sets.len(),
        s.rotations == sets[idx].rotations,
    ensures
        sum_sizes(sets.update(idx, s)) == sum_sizes(sets),
    decreases sets.len(),
{
    let upd = sets.update(idx, s);
    if idx == sets.len() - 1 {
        assert(upd.drop_last() =~= sets.drop_last());
        assert(upd.last() == s);
    } else {
        assert(upd.drop_last() =~= sets.drop_last().update(idx, s));
        assert(upd.last() == sets.last());
        lemma_sum_sizes_update_same_rots(sets.drop_last(), idx, s);
    }
}

pub proof fn lemma_sum_sizes_push(sets: Seq<RotationSetV>, s: RotationSetV)
    ensures
        sum_sizes(sets.push(s)) == sum_sizes(sets) + s.rotations.len(),
{
    assert(sets.push(s).drop_last() =~= sets);
}
pub proof fn lemma_sets_upto_props(entries: Seq<CommEntryV>, superset: Seq<i32>, n: int)
    requires
        0 <= n <= entries.len(),
        entries_wf(entries),
    ensures
        sets_wf(superset, sets_upto(entries, superset, n)),
        sets_faithful(entries, n, sets_upto(entries, superset, n)),
        sets_rots_from(entries, n, sets_upto(entries, superset, n)),
        sets_upto(entries, superset, n).len() <= n,
        sum_sizes(sets_upto(entries, superset, n)) <= sum_rots(entries.subrange(0, n)),
    decreases n,
{
    if n > 0 {
        lemma_sets_upto_props(entries, superset, n - 1);
        let acc0 = sets_upto(entries, superset, n - 1);
        let e = entries[n - 1];
        let acc = sets_upto(entries, superset, n);
        let idx = find_set(acc0, e.rots);
        lemma_find_set_props(acc0, e.rots);
        assert(sum_rots(entries.subrange(0, n)) == sum_rots(entries.subrange(0, n - 1))
            + e.rots.len()) by {
            assert(entries.subrange(0, n).drop_last() =~= entries.subrange(0, n - 1));
            assert(entries.subrange(0, n).last() == e);
        }
        // the commitment of entry n-1 is fresh: entries have pairwise distinct
        // commitments, and every commitment in acc0 stems from an earlier entry
        assert forall|i: int| 0 <= i < acc0.len() implies !set_has_comm(
            #[trigger] acc0[i],
            e.comm,
        ) by {
            if set_has_comm(acc0[i], e.comm) {
                assert(comm_in_sets(acc0, e.comm));
                assert(comm_among(entries, n - 1, e.comm));
                let k = choose|k: int| 0 <= k < n - 1 && (#[trigger] entries[k]).comm == e.comm;
                assert(entries[k].comm != entries[n - 1].comm);
            }
        }
        if idx < 0 {
            let ns = RotationSetV {
                rotations: e.rots,
                diffs: diffs_of(superset, e.rots),
                comms: seq![e.comm],
                evals: seq![e.evals],
            };
            assert(acc == acc0.push(ns));
            lemma_sum_sizes_push(acc0, ns);
            assert(entry_wf(e));
            assert(set_wf(superset, ns));
            assert(sets_wf(superset, acc));
            assert forall|c: EcPointV| #[trigger] comm_among(entries, n, c) implies comm_in_sets(
                acc,
                c,
            ) by {
                let k = choose|k: int| 0 <= k < n && (#[trigger] entries[k]).comm == c;
                if k < n - 1 {
                    assert(comm_among(entries, n - 1, c));
                    assert(comm_in_sets(acc0, c));
                    let i = choose|i: int|
                        0 <= i < acc0.len() && set_has_comm(#[trigger] acc0[i], c);
                    assert(set_has_comm(acc[i], c));
                } else {
                    assert(ns.comms[0] == c);
                    assert(set_has_comm(acc[acc0.len() as int], c));
                }
            }
            assert forall|c: EcPointV| comm_in_sets(acc, c) implies #[trigger] comm_among(
                entries,
                n,
                c,
            ) by {
                let i = choose|i: int| 0 <= i < acc.len() && set_has_comm(#[trigger] acc[i], c);
                if i < acc0.len() {
                    assert(comm_in_sets(acc0, c));
                    assert(comm_among(entries, n - 1, c));
                    let k = choose|k: int|
                        0 <= k < n - 1 && (#[trigger] entries[k]).comm == c;
                    assert(entries[k].comm == c);
                } else {
                    let w = choose|w: int| 0 <= w < ns.comms.len() && ns.comms[w] == c;
                    assert(ns.comms[0] == c);
                    assert(entries[n - 1].comm == c);
                }
            }
            assert forall|i: int, j: int, c: EcPointV|
                0 <= i < acc.len() && 0 <= j < acc.len() && i != j && #[trigger] set_has_comm(
                    acc[i],
                    c,
                ) implies !(#[trigger] set_has_comm(acc[j], c)) by {
                if i < acc0.len() && j < acc0.len() {
                } else if i == acc0.len() {
                    let w = choose|w: int| 0 <= w < ns.comms.len() && ns.comms[w] == c;
                    assert(c == e.comm);
                } else if j == acc0.len() && set_has_comm(acc[j], c) {
                    let w = choose|w: int| 0 <= w < ns.comms.len() && ns.comms[w] == c;
                    assert(c == e.comm);
                }
            }
        } else {
            assert(!acc0[idx].comms.contains(e.comm));
            let s0 = acc0[idx];
            let s1 = RotationSetV {
                rotations: s0.rotations,
                diffs: s0.diffs,
                comms: s0.comms.push(e.comm),
                evals: s0.evals.push(e.evals),
            };
            assert(acc == acc0.update(idx, s1));
            lemma_sum_sizes_update_same_rots(acc0, idx, s1);
            assert(entry_wf(e));
            assert(set_wf(superset, s1)) by {
                assert(s0.rotations == e.rots);
                assert forall|p: int| 0 <= p < s1.evals.len() implies (#[trigger]
                s1.evals[p]).len() == s1.rotations.len() by {
                    if p < s0.evals.len() {
                        assert(s1.evals[p] == s0.evals[p]);
                    } else {
                        assert(s1.evals[p] == e.evals);
                    }
                }
                assert forall|p: int, q: int| 0 <= p < q < s1.comms.len() implies s1.comms[p]
                    != s1.comms[q] by {
                    if q == s0.comms.len() {
                        assert(s1.comms[q] == e.comm);
                        assert(s1.comms[p] == s0.comms[p]);
                        if s0.comms[p] == e.comm {
                            assert(s0.comms.contains(e.comm));
                        }
                    }
                }
            }
            assert(sets_wf(superset, acc)) by {
                assert(forall|i: int| 0 <= i < acc.len() && i != idx ==> acc[i] == acc0[i]);
                assert(s1.rotations == s0.rotations);
            }
            assert forall|c: EcPointV| #[trigger] comm_among(entries, n, c) implies comm_in_sets(
                acc,
                c,
            ) by {
                let k = choose|k: int| 0 <= k < n && (#[trigger] entries[k]).comm == c;
                if k < n - 1 {
                    assert(comm_among(entries, n - 1, c));
                    assert(comm_in_sets(acc0, c));
                    let i = choose|i: int|
                        0 <= i < acc0.len() && set_has_comm(#[trigger] acc0[i], c);
                    if i == idx {
                        let w = choose|w: int| 0 <= w < s0.comms.len() && s0.comms[w] == c;
                        assert(s1.comms[w] == c);
                        assert(set_has_comm(acc[idx], c));
                    } else {
                        assert(set_has_comm(acc[i], c));
                    }
                } else {
                    assert(s1.comms[s0.comms.len() as int] == c);
                    assert(set_has_comm(acc[idx], c));
                }
            }
            assert forall|c: EcPointV| comm_in_sets(acc, c) implies #[trigger] comm_among(
                entries,
                n,
                c,
            ) by {
                let i = choose|i: int| 0 <= i < acc.len() && set_has_comm(#[trigger] acc[i], c);
                if i != idx {
                    assert(set_has_comm(acc0[i], c));
                    assert(comm_in_sets(acc0, c));
                    assert(comm_among(entries, n - 1, c));
                    let k = choose|k: int|
                        0 <= k < n - 1 && (#[trigger] entries[k]).comm == c;
                    assert(entries[k].comm == c);
                } else {
                    let w = choose|w: int| 0 <= w < s1.comms.len() && s1.comms[w] == c;
                    if w < s0.comms.len() {
                        assert(s0.comms[w] == c);
                        assert(set_has_comm(acc0[idx], c));
                        assert(comm_in_sets(acc0, c));
                        assert(comm_among(entries, n - 1, c));
                        let k = choose|k: int|
                            0 <= k < n - 1 && (#[trigger] entries[k]).comm == c;
                        assert(entries[k].comm == c);
                    } else {
                        assert(c == e.comm);
                        assert(entries[n - 1].comm == c);
                    }
                }
            }
            assert forall|i: int, j: int, c: EcPointV|
                0 <= i < acc.len() && 0 <= j < acc.len() && i != j && #[trigger] set_has_comm(
                    acc[i],
                    c,
                ) implies !(#[trigger] set_has_comm(acc[j], c)) by {
                if set_has_comm(acc[i], c) && set_has_comm(acc[j], c) {
                    if i != idx && j != idx {
                        assert(set_has_comm(acc0[i], c) && set_has_comm(acc0[j], c));
                        assert(false);
                    } else {
                        let a = if i == idx { j } else { i };
                        assert(a != idx && set_has_comm(acc0[a], c));
                        let w = choose|w: int|
                            0 <= w < s1.comms.len() && s1.comms[w] == c;
                        if w < s0.comms.len() {
                            assert(set_has_comm(acc0[idx], c));
                            assert(false);
                        } else {
                            assert(c == e.comm);
                            assert(!set_has_comm(acc0[a], e.comm));
                            assert(false);
                        }
                    }
                }
            }
            assert(sets_rots_from(entries, n, acc)) by {
                assert forall|i: int| 0 <= i < acc.len() implies exists|k: int|
                    0 <= k < n && (#[trigger] entries[k]).rots == (#[trigger] acc[i]).rotations by {
                    if i == idx {
                        assert(entries[n - 1].rots == acc[i].rotations);
                    } else {
                        assert(acc[i] == acc0[i]);
                        let k = choose|k: int|
                            0 <= k < n - 1 && (#[trigger] entries[k]).rots == acc0[i].rotations;
                        assert(entries[k].rots == acc[i].rotations);
                    }
                }
            }
        }
    }
}
/// Views of a sequence of queries.
pub open spec fn qviews(qs: Seq<Query>) -> Seq<QueryV> {
    qs.map_values(|q: Query| q@)
}

/// The global rotation superset of the first `n` queries, kept sorted and
/// deduplicated as it grows.
pub open spec fn superset_upto(qs: Seq<QueryV>, n: int) -> Seq<i32>
    decreases n,
{
    if n <= 0 {
        Seq::empty()
    } else {
        set_insert(superset_upto(qs, n - 1), qs[n - 1].rotation)
    }
}

/// The ordered set of all distinct rotations appearing across all queries.
pub open spec fn superset_of(qs: Seq<QueryV>) -> Seq<i32> {
    superset_upto(qs, qs.len() as int)
}

pub proof fn lemma_superset_upto_props(qs: Seq<QueryV>, n: int)
    requires
        0 <= n <= qs.len(),
    ensures
        sorted_unique(superset_upto(qs, n)),
        forall|r: i32|
            superset_upto(qs, n).contains(r) <==> exists|k: int|
                0 <= k < n && (#[trigger] qs[k]).rotation == r,
        superset_upto(qs, n).len() <= n,
    decreases n,
{
    if n > 0 {
        lemma_superset_upto_props(qs, n - 1);
        let s0 = superset_upto(qs, n - 1);
        lemma_set_insert_props(s0, qs[n - 1].rotation);
        assert forall|r: i32| superset_upto(qs, n).contains(r) implies exists|k: int|
            0 <= k < n && (#[trigger] qs[k]).rotation == r by {
            if s0.contains(r) {
                let k = choose|k: int| 0 <= k < n - 1 && (#[trigger] qs[k]).rotation == r;
                assert(qs[k].rotation == r);
            } else {
                assert(qs[n - 1].rotation == r);
            }
        }
        assert forall|r: i32|
            (exists|k: int| 0 <= k < n && (#[trigger] qs[k]).rotation == r) implies superset_upto(
            qs,
            n,
        ).contains(r) by {
            let k = choose|k: int| 0 <= k < n && (#[trigger] qs[k]).rotation == r;
            if k < n - 1 {
                assert(s0.contains(r));
            }
        }
    }
}

/// Query `k` repeats an already-recorded (commitment, rotation) pair.
pub open spec fn dup_at(qs: Seq<QueryV>, k: int) -> bool {
    let acc = group_upto(qs, k);
    let idx = find_comm(acc, qs[k].comm);
    idx >= 0 && acc[idx].rots.contains(qs[k].rotation)
}

pub proof fn lemma_dup_at_iff(qs: Seq<QueryV>, k: int)
    requires
        0 <= k < qs.len(),
    ensures
        dup_at(qs, k) <==> exists|l: int|
            0 <= l < k && (#[trigger] qs[l]).comm == qs[k].comm && qs[l].rotation == qs[k].rotation,
{
    lemma_group_upto_props(qs, k);
    let acc = group_upto(qs, k);
    let idx = find_comm(acc, qs[k].comm);
    lemma_find_comm_props(acc, qs[k].comm);
    if dup_at(qs, k) {
        assert(acc[idx].rots.contains(qs[k].rotation));
        assert(queried(qs, k, qs[k].comm, qs[k].rotation));
        let l = choose|l: int|
            0 <= l < k && (#[trigger] qs[l]).comm == qs[k].comm && qs[l].rotation == qs[k].rotation;
        assert(qs[l].comm == qs[k].comm);
    }
    if exists|l: int|
        0 <= l < k && (#[trigger] qs[l]).comm == qs[k].comm && qs[l].rotation == qs[k].rotation {
        let l = choose|l: int|
            0 <= l < k && (#[trigger] qs[l]).comm == qs[k].comm && qs[l].rotation == qs[k].rotation;
        assert(comm_seen(qs, k, qs[k].comm));
        let i = choose|i: int| 0 <= i < acc.len() && (#[trigger] acc[i]).comm == qs[k].comm;
        assert(idx >= 0);
        assert(acc[idx].comm == qs[k].comm);
        assert(queried(qs, k, acc[idx].comm, qs[k].rotation));
        assert(acc[idx].rots.contains(qs[k].rotation));
    }
}

/// Strengthens one duplicate step into the global duplicate predicate.
pub proof fn lemma_dup_at_implies_duplicate(qs: Seq<QueryV>, k: int)
    requires
        0 <= k < qs.len(),
        dup_at(qs, k),
    ensures
        duplicate_query(qs),
{
    lemma_dup_at_iff(qs, k);
}

/// A duplicate-free prefix: no query repeats a (commitment, rotation) pair of
/// an earlier query.
pub open spec fn no_dup_upto(qs: Seq<QueryV>, n: int) -> bool {
    forall|k: int, l: int|
        0 <= l < k < n ==> !((#[trigger] qs[l]).comm == (#[trigger] qs[k]).comm && qs[l].rotation
            == qs[k].rotation)
}
fn copy_i32(v: &Vec<i32>) -> (r: Vec<i32>)
    ensures
        r@ == v@,
{
    let mut r: Vec<i32> = Vec::new();
    let mut i: usize = 0;
    while i < v.len()
        invariant
            i <= v@.len(),
            r@ == v@.subrange(0, i as int),
        decreases v@.len() - i,
    {
        r.push(v[i]);
        proof {
            assert(r@ =~= v@.subrange(0, i + 1));
        }
        i += 1;
    }
    proof {
        assert(r@ =~= v@);
    }
    r
}

fn copy_exprs(v: &Vec<ScalarExpr>) -> (r: Vec<ScalarExpr>)
    ensures
        r@ == v@,
{
    let mut r: Vec<ScalarExpr> = Vec::new();
    let mut i: usize = 0;
    while i < v.len()
        invariant
            i <= v@.len(),
            r@ == v@.subrange(0, i as int),
        decreases v@.len() - i,
    {
        r.push(v[i].clone());
        proof {
            assert(r@ =~= v@.subrange(0, i + 1));
        }
        i += 1;
    }
    proof {
        assert(r@ =~= v@);
    }
    r
}

fn copy_points(v: &Vec<EcPoint>) -> (r: Vec<EcPoint>)
    ensures
        r@ == v@,
{
    let mut r: Vec<EcPoint> = Vec::new();
    let mut i: usize = 0;
    while i < v.len()
        invariant
            i <= v@.len(),
            r@ == v@.subrange(0, i as int),
        decreases v@.len() - i,
    {
        r.push(v[i].clone());
        proof {
            assert(r@ =~= v@.subrange(0, i + 1));
        }
        i += 1;
    }
    proof {
        assert(r@ =~= v@);
    }
    r
}

fn copy_eval_lists(v: &Vec<Vec<ScalarExpr>>) -> (r: Vec<Vec<ScalarExpr>>)
    ensures
        r.deep_view() == v.deep_view(),
{
    let mut r: Vec<Vec<ScalarExpr>> = Vec::new();
    let mut i: usize = 0;
    while i < v.len()
        invariant
            i <= v@.len(),
            r.deep_view() == v.deep_view().subrange(0, i as int),
        decreases v@.len() - i,
    {
        let w = copy_exprs(&v[i]);
        let ghost r0 = r.deep_view();
        r.push(w);
        proof {
            assert(w.deep_view() =~= v@[i as int].deep_view());
            assert(r.deep_view() =~= r0.push(w.deep_view()));
            assert(r.deep_view() =~= v.deep_view().subrange(0, i + 1));
        }
        i += 1;
    }
    proof {
        assert(r.deep_view() =~= v.deep_view());
    }
    r
}

pub(crate) fn contains_rot(v: &Vec<i32>, x: i32) -> (b: bool)
    ensures
        b == v@.contains(x),
{
    let mut i: usize = 0;
    while i < v.len()
        invariant
            i <= v@.len(),
            forall|k: int| 0 <= k < i ==> v@[k] != x,
        decreases v@.len() - i,
    {
        if v[i] == x {
            return true;
        }
        i += 1;
    }
    false
}

/// Scan for the ordered position of `x` in a sorted vector.
pub(crate) fn find_insert_pos(v: &Vec<i32>, x: i32) -> (p: usize)
    requires
        sorted_unique(v@),
    ensures
        p as int == insert_pos(v@, x),
        p <= v@.len(),
{
    let mut p: usize = 0;
    while p < v.len() && v[p] < x
        invariant
            p <= v@.len(),
            forall|i: int| 0 <= i < p ==> v@[i] < x,
        decreases v@.len() - p,
    {
        p += 1;
    }
    proof {
        lemma_insert_pos_unique(v@, x, p as int);
    }
    p
}

/// First entry holding commitment `c`, by handle value equality.
fn find_entry(entries: &Vec<CommEntry>, c: &EcPoint) -> (r: Option<usize>)
    ensures
        match r {
            Some(j) => j < entries@.len() && j as int == find_comm(entries.deep_view(), c@),
            None => find_comm(entries.deep_view(), c@) < 0,
        },
{
    proof {
        lemma_find_comm_props(entries.deep_view(), c@);
    }
    let mut j: usize = 0;
    while j < entries.len()
        invariant
            j <= entries@.len(),
            forall|i: int| 0 <= i < j ==> (#[trigger] entries.deep_view()[i]).comm != c@,
        decreases entries@.len() - j,
    {
        if entries[j].comm.same(c) {
            proof {
                lemma_find_comm_props(entries.deep_view(), c@);
                assert(entries.deep_view()[j as int].comm == c@);
                let f = find_comm(entries.deep_view(), c@);
                if 0 <= f < j {
                    assert(entries.deep_view()[f].comm != c@);
                    assert(entries.deep_view()[f].comm == c@);
                }
                if f > j || f < 0 {
                    assert(entries.deep_view()[j as int].comm != c@);
                    assert(false);
                }
            }
            return Some(j);
        }
        j += 1;
    }
    proof {
        lemma_find_comm_props(entries.deep_view(), c@);
        let f = find_comm(entries.deep_view(), c@);
        if f >= 0 {
            assert(entries.deep_view()[f].comm != c@);
            assert(false);
        }
    }
    None
}

/// Element-wise equality of two rotation vectors.
fn rots_eq(a: &Vec<i32>, b: &Vec<i32>) -> (r: bool)
    ensures
        r == (a@ == b@),
{
    if a.len() != b.len() {
        return false;
    }
    let mut i: usize = 0;
    while i < a.len()
        invariant
            i <= a@.len(),
            a@.len() == b@.len(),
            forall|k: int| 0 <= k < i ==> a@[k] == b@[k],
        decreases a@.len() - i,
    {
        if a[i] != b[i] {
            return false;
        }
        i += 1;
    }
    proof {
        assert(a@ =~= b@);
    }
    true
}

/// First set whose rotation collection equals `rots`.
fn find_set_pos(sets: &Vec<RotationSet>, rots: &Vec<i32>) -> (r: Option<usize>)
    ensures
        match r {
            Some(j) => j < sets@.len() && j as int == find_set(sets.deep_view(), rots@),
            None => find_set(sets.deep_view(), rots@) < 0,
        },
{
    proof {
        lemma_find_set_props(sets.deep_view(), rots@);
    }
    let mut j: usize = 0;
    while j < sets.len()
        invariant
            j <= sets@.len(),
            forall|i: int| 0 <= i < j ==> (#[trigger] sets.deep_view()[i]).rotations != rots@,
        decreases sets@.len() - j,
    {
        if rots_eq(sets[j].rotations(), rots) {
            proof {
                lemma_find_set_props(sets.deep_view(), rots@);
                assert(sets.deep_view()[j as int].rotations == rots@);
                let f = find_set(sets.deep_view(), rots@);
                if 0 <= f < j {
                    assert(sets.deep_view()[f].rotations != rots@);
                    assert(sets.deep_view()[f].rotations == rots@);
                }
                if f > j || f < 0 {
                    assert(sets.deep_view()[j as int].rotations != rots@);
                    assert(false);
                }
            }
            return Some(j);
        }
        j += 1;
    }
    proof {
        lemma_find_set_props(sets.deep_view(), rots@);
        let f = find_set(sets.deep_view(), rots@);
        if f >= 0 {
            assert(sets.deep_view()[f].rotations != rots@);
            assert(false);
        }
    }
    None
}

/// Membership of a commitment handle among a set's commitments.
fn comms_contain(comms: &Vec<EcPoint>, c: &EcPoint) -> (b: bool)
    ensures
        b == comms.deep_view().contains(c@),
{
    let mut i: usize = 0;
    while i < comms.len()
        invariant
            i <= comms@.len(),
            forall|k: int| 0 <= k < i ==> comms.deep_view()[k] != c@,
        decreases comms@.len() - i,
    {
        if comms[i].same(c) {
            proof {
                assert(comms.deep_view()[i as int] == c@);
            }
            return true;
        }
        i += 1;
    }
    proof {
        if comms.deep_view().contains(c@) {
            let w = choose|w: int| 0 <= w < comms.deep_view().len() && comms.deep_view()[w] == c@;
            assert(comms.deep_view()[w] != c@);
        }
    }
    false
}

/// The superset rotations absent from `rots`, in superset order.
fn compute_diffs(superset: &Vec<i32>, rots: &Vec<i32>) -> (r: Vec<i32>)
    ensures
        r@ == diffs_of(superset@, rots@),
{
    let mut r: Vec<i32> = Vec::new();
    let mut i: usize = 0;
    while i < superset.len()
        invariant
            i <= superset@.len(),
            r@ == diffs_of(superset@.subrange(0, i as int), rots@),
        decreases superset@.len() - i,
    {
        let keep = !contains_rot(rots, superset[i]);
        proof {
            reveal_with_fuel(Seq::filter, 2);
            let a = superset@.subrange(0, i + 1);
            let b = superset@.subrange(0, i as int);
            assert(a.drop_last() =~= b);
            assert(a.last() == superset@[i as int]);
            assert(diffs_of(a, rots@) == if !rots@.contains(superset@[i as int]) {
                diffs_of(b, rots@).push(superset@[i as int])
            } else {
                diffs_of(b, rots@)
            });
        }
        if keep {
            r.push(superset[i]);
        }
        i += 1;
    }
    proof {
        assert(superset@.subrange(0, superset@.len() as int) =~= superset@);
    }
    r
}
/// Partitions the canonical query list into rotation sets and computes the
/// global rotation superset. Fails, with no partial output, on the structural
/// input faults: an empty query list (empty superset) and a commitment queried
/// twice at one rotation.
pub fn rotation_sets(queries: &Vec<Query>) -> (r: Result<(Vec<i32>, Vec<RotationSet>), PcsError>)
    ensures
        match r {
            Ok(out) => {
                &&& queries@.len() > 0
                &&& !duplicate_query(qviews(queries@))
                &&& out.0@ == superset_of(qviews(queries@))
                &&& out.1.deep_view() == spec_rotation_sets(qviews(queries@))
            },
            Err(PcsError::DuplicateQuery) => duplicate_query(qviews(queries@)),
            Err(PcsError::EmptySuperset) => queries@.len() == 0,
            Err(_) => false,
        },
{
    let ghost qv = qviews(queries@);
    if queries.len() == 0 {
        return Err(PcsError::EmptySuperset);
    }
    let mut superset: Vec<i32> = Vec::new();
    let mut entries: Vec<CommEntry> = Vec::new();
    let mut qi: usize = 0;
    while qi < queries.len()
        invariant
            qv == qviews(queries@),
            qv.len() == queries@.len(),
            qi <= queries@.len(),
            superset@ == superset_upto(qv, qi as int),
            entries.deep_view() == group_upto(qv, qi as int),
            no_dup_upto(qv, qi as int),
        decreases queries@.len() - qi,
    {
        let q = &queries[qi];
        proof {
            assert(qv[qi as int] == q@);
            lemma_superset_upto_props(qv, qi as int);
            lemma_group_upto_props(qv, qi as int);
        }
        insert_sorted(&mut superset, q.rotation());
        match find_entry(&entries, q.comm()) {
            None => {
                let mut rots: Vec<i32> = Vec::new();
                rots.push(q.rotation());
                let mut evals: Vec<ScalarExpr> = Vec::new();
                evals.push(q.eval().clone());
                let ne = CommEntry { comm: q.comm().clone(), rots, evals };
                proof {
                    assert(ne@.rots =~= seq![q@.rotation]);
                    assert(ne@.evals =~= seq![q@.eval]);
                }
                entries.push(ne);
                proof {
                    assert(entries.deep_view() =~= group_upto(qv, qi + 1));
                    assert(!dup_at(qv, qi as int));
                    lemma_dup_at_iff(qv, qi as int);
                    assert(no_dup_upto(qv, qi + 1));
                }
            },
            Some(j) => {
                let dup = contains_rot(&entries[j].rots, q.rotation());
                proof {
                    assert(entries.deep_view()[j as int] == entries@[j as int]@);
                }
                if dup {
                    proof {
                        assert(dup_at(qv, qi as int));
                        lemma_dup_at_implies_duplicate(qv, qi as int);
                    }
                    return Err(PcsError::DuplicateQuery);
                }
                let ghost e0 = entries.deep_view()[j as int];
                proof {
                    assert(entry_wf(e0));
                }
                let p = find_insert_pos(&entries[j].rots, q.rotation());
                let e = &entries[j];
                let mut rots = copy_i32(&e.rots);
                let mut evals = copy_exprs(&e.evals);
                let comm = e.comm.clone();
                rots.insert(p, q.rotation());
                evals.insert(p, q.eval().clone());
                let ne = CommEntry { comm, rots, evals };
                proof {
                    assert(ne@.rots == e0.rots.insert(p as int, q@.rotation));
                    assert(ne@.evals =~= e0.evals.insert(p as int, q@.eval));
                    assert(ne@ == entry_step(e0, q@.rotation, q@.eval));
                }
                entries.set(j, ne);
                proof {
                    assert(entries.deep_view() =~= group_upto(qv, qi + 1));
                    assert(!dup_at(qv, qi as int));
                    lemma_dup_at_iff(qv, qi as int);
                    assert(no_dup_upto(qv, qi + 1));
                }
            },
        }
        qi += 1;
    }
    let ghost entriesv = entries.deep_view();
    let ghost supersetv = superset@;
    proof {
        assert(entriesv == spec_entries(qv));
        assert(supersetv == superset_of(qv));
    }
    let mut sets: Vec<RotationSet> = Vec::new();
    let mut ei: usize = 0;
    while ei < entries.len()
        invariant
            entriesv == entries.deep_view(),
            supersetv == superset@,
            ei <= entries@.len(),
            sets.deep_view() == sets_upto(entriesv, supersetv, ei as int),
        decreases entries@.len() - ei,
    {
        let e = &entries[ei];
        proof {
            assert(entriesv[ei as int] == e@);
        }
        match find_set_pos(&sets, &e.rots) {
            None => {
                let rotations = copy_i32(&e.rots);
                let diffs = compute_diffs(&superset, &e.rots);
                let mut comms: Vec<EcPoint> = Vec::new();
                comms.push(e.comm.clone());
                let mut evals: Vec<Vec<ScalarExpr>> = Vec::new();
                evals.push(copy_exprs(&e.evals));
                let ns = RotationSet { rotations, diffs, comms, evals };
                proof {
                    assert(ns@.comms =~= seq![e@.comm]);
                    assert(ns@.evals =~= seq![e@.evals]);
                }
                sets.push(ns);
                proof {
                    assert(sets.deep_view() =~= sets_upto(entriesv, supersetv, ei + 1));
                }
            },
            Some(j) => {
                proof {
                    assert(sets.deep_view()[j as int] == sets@[j as int]@);
                }
                let member = comms_contain(&sets[j].comms, &e.comm);
                if member {
                    proof {
                        assert(sets.deep_view() =~= sets_upto(entriesv, supersetv, ei + 1));
                    }
                } else {
                    let ghost s0 = sets.deep_view()[j as int];
                    let s = &sets[j];
                    let rotations = copy_i32(&s.rotations);
                    let diffs = copy_i32(&s.diffs);
                    let mut comms = copy_points(&s.comms);
                    let mut evals = copy_eval_lists(&s.evals);
                    comms.push(e.comm.clone());
                    evals.push(copy_exprs(&e.evals));
                    let ns = RotationSet { rotations, diffs, comms, evals };
                    proof {
                        assert(ns@.comms =~= s0.comms.push(e@.comm));
                        assert(ns@.evals =~= s0.evals.push(e@.evals));
                    }
                    sets.set(j, ns);
                    proof {
                        assert(sets.deep_view() =~= sets_upto(entriesv, supersetv, ei + 1));
                    }
                }
            },
        }
        ei += 1;
    }
    proof {
        assert(sets.deep_view() == spec_rotation_sets(qv));
        assert(!duplicate_query(qv));
    }
    Ok((superset, sets))
}
/// Well-formedness of the partition: every set is well formed against the
/// superset, rotation collections are pairwise distinct, and the structural
/// sizes are bounded by the query count (which bounds every layout region).
pub proof fn lemma_rotation_sets_wf(qs: Seq<QueryV>)
    ensures
        sorted_unique(superset_of(qs)),
        superset_of(qs).len() <= qs.len(),
        sets_wf(superset_of(qs), spec_rotation_sets(qs)),
        sum_sizes(spec_rotation_sets(qs)) <= qs.len(),
        spec_rotation_sets(qs).len() <= qs.len(),
        qs.len() > 0 ==> spec_rotation_sets(qs).len() >= 1,
{
    let n = qs.len() as int;
    let entries = spec_entries(qs);
    let superset = superset_of(qs);
    lemma_superset_upto_props(qs, n);
    lemma_group_upto_props(qs, n);
    lemma_sets_upto_props(entries, superset, entries.len() as int);
    assert(entries.subrange(0, entries.len() as int) =~= entries);
    if qs.len() > 0 {
        assert(comm_seen(qs, n, qs[0].comm));
        assert(comm_among(entries, entries.len() as int, qs[0].comm));
        assert(comm_in_sets(spec_rotation_sets(qs), qs[0].comm));
    }
}

/// For every non-empty input the rotation superset is non-empty, and every
/// rotation set's rotations are a subset of the superset.
pub proof fn lemma_superset_covers(qs: Seq<QueryV>)
    requires
        qs.len() > 0,
    ensures
        superset_of(qs).len() > 0,
        forall|i: int, r: i32|
            0 <= i < spec_rotation_sets(qs).len() && (#[trigger] spec_rotation_sets(
                qs,
            )[i].rotations.contains(r)) ==> superset_of(qs).contains(r),
{
    let n = qs.len() as int;
    let entries = spec_entries(qs);
    let superset = superset_of(qs);
    let sets = spec_rotation_sets(qs);
    lemma_superset_upto_props(qs, n);
    lemma_group_upto_props(qs, n);
    lemma_sets_upto_props(entries, superset, entries.len() as int);
    assert(superset.contains(qs[0].rotation));
    assert(superset.len() > 0);
    assert forall|i: int, r: i32|
        0 <= i < sets.len() && (#[trigger] sets[i].rotations.contains(r)) implies
        superset.contains(r) by {
        let k = choose|k: int|
            0 <= k < entries.len() && (#[trigger] entries[k]).rots == sets[i].rotations;
        assert(entries[k].rots.contains(r));
        assert(queried(qs, n, entries[k].comm, r));
        let l = choose|l: int|
            0 <= l < n && (#[trigger] qs[l]).comm == entries[k].comm && qs[l].rotation == r;
        assert(qs[l].rotation == r);
    }
}

/// Every queried commitment handle appears in exactly one rotation set, once;
/// no other handle appears in any set.
pub proof fn lemma_commitment_partition(qs: Seq<QueryV>)
    ensures
        forall|c: EcPointV|
            #[trigger] comm_in_sets(spec_rotation_sets(qs), c) <==> exists|k: int|
                0 <= k < qs.len() && (#[trigger] qs[k]).comm == c,
        forall|i: int, j: int, c: EcPointV|
            0 <= i < spec_rotation_sets(qs).len() && 0 <= j < spec_rotation_sets(qs).len() && i
                != j && #[trigger] set_has_comm(spec_rotation_sets(qs)[i], c)
                ==> !(#[trigger] set_has_comm(spec_rotation_sets(qs)[j], c)),
        forall|i: int, p: int, q: int|
            0 <= i < spec_rotation_sets(qs).len() && 0 <= p < q < spec_rotation_sets(
                qs,
            )[i].comms.len() ==> (#[trigger] spec_rotation_sets(qs)[i].comms[p]) != (
            #[trigger] spec_rotation_sets(qs)[i].comms[q]),
{
    let n = qs.len() as int;
    let entries = spec_entries(qs);
    let superset = superset_of(qs);
    let sets = spec_rotation_sets(qs);
    lemma_group_upto_props(qs, n);
    lemma_sets_upto_props(entries, superset, entries.len() as int);
    assert forall|c: EcPointV| #[trigger] comm_in_sets(sets, c) implies exists|k: int|
        0 <= k < qs.len() && (#[trigger] qs[k]).comm == c by {
        assert(comm_among(entries, entries.len() as int, c));
        assert(comm_seen(qs, n, c));
        let k = choose|k: int| 0 <= k < n && (#[trigger] qs[k]).comm == c;
        assert(qs[k].comm == c);
    }
    assert forall|c: EcPointV|
        (exists|k: int| 0 <= k < qs.len() && (#[trigger] qs[k]).comm == c) implies
        #[trigger] comm_in_sets(sets, c) by {
        assert(comm_seen(qs, n, c));
        assert(comm_among(entries, entries.len() as int, c));
    }
}

/// diffs and rotations of every set are disjoint and together give exactly
/// the superset.
pub proof fn lemma_diffs_complement(qs: Seq<QueryV>)
    ensures
        forall|i: int|
            0 <= i < spec_rotation_sets(qs).len() ==> {
                let s = #[trigger] spec_rotation_sets(qs)[i];
                s.diffs.to_set().union(s.rotations.to_set()) == superset_of(qs).to_set()
                    && s.diffs.to_set().intersect(s.rotations.to_set()) == Set::<i32>::empty()
            },
{
    let n = qs.len() as int;
    let entries = spec_entries(qs);
    let superset = superset_of(qs);
    let sets = spec_rotation_sets(qs);
    lemma_superset_upto_props(qs, n);
    lemma_group_upto_props(qs, n);
    lemma_sets_upto_props(entries, superset, entries.len() as int);
    if qs.len() > 0 {
        lemma_superset_covers(qs);
    }
    assert forall|i: int| 0 <= i < sets.len() implies {
        let s = #[trigger] sets[i];
        s.diffs.to_set().union(s.rotations.to_set()) == superset_of(qs).to_set()
            && s.diffs.to_set().intersect(s.rotations.to_set()) == Set::<i32>::empty()
    } by {
        let s = sets[i];
        let pred = |r: i32| !s.rotations.contains(r);
        assert(s.diffs == superset.filter(pred));
        assert forall|r: i32| s.diffs.contains(r) implies superset.contains(r)
            && !s.rotations.contains(r) by {
            let w = choose|w: int| 0 <= w < s.diffs.len() && s.diffs[w] == r;
            superset.lemma_filter_pred(pred, w);
            superset.lemma_filter_contains_rev(pred, r);
        }
        assert forall|r: i32| superset.contains(r) && !s.rotations.contains(r) implies
            s.diffs.contains(r) by {
            let w = choose|w: int| 0 <= w < superset.len() && superset[w] == r;
            superset.lemma_filter_contains(pred, w);
        }
        assert(s.diffs.to_set().union(s.rotations.to_set()) =~= superset_of(qs).to_set());
        assert(s.diffs.to_set().intersect(s.rotations.to_set()) =~= Set::<i32>::empty());
    }
}

/// Determinism of extraction and partitioning: the superset, the set order,
/// and the per-set commitment order are functions of the query list alone, so
/// identical input yields identical partitions (and therefore identical
/// downstream address assignments).
pub proof fn lemma_partition_deterministic(qs1: Seq<QueryV>, qs2: Seq<QueryV>)
    requires
        qs1 == qs2,
    ensures
        superset_of(qs1) == superset_of(qs2),
        spec_rotation_sets(qs1) == spec_rotation_sets(qs2),
{
}
} // verus!
