//! Canonical query extraction: turns constraint-system metadata and the
//! per-category commitment/evaluation data into the one ordered list of
//! (commitment, rotation, evaluation) queries. The composition order is part
//! of the external contract — it determines every downstream address — so the
//! result is pinned exactly, segment by segment.

use vstd::prelude::*;
use crate::expr::{EcPoint, EcPointV, ScalarExpr};

verus! {

/// Selects which batched opening scheme a generator implements. Only the
/// BDFG21 (SHPLONK) generator lives in this crate; GWC19 names its sibling.
#[derive(Clone, Copy, Debug, PartialEq, Eq, Structural)]
pub enum BatchOpenScheme {
    Gwc19,
    Bdfg21,
}

/// Mathematical image of a query.
pub ghost struct QueryV {
    pub comm: EcPointV,
    pub rotation: i32,
    pub eval: Seq<char>,
}

/// One opening query: a commitment handle, a signed rotation, and the rendered
/// evaluation expression claimed at that rotation. Immutable once constructed.
#[derive(Debug)]
pub struct Query {
    comm: EcPoint,
    rotation: i32,
    eval: ScalarExpr,
}

impl View for Query {
    type V = QueryV;

    closed spec fn view(&self) -> QueryV {
        QueryV { comm: self.comm@, rotation: self.rotation, eval: self.eval@ }
    }
}

impl DeepView for Query {
    type V = QueryV;

    open spec fn deep_view(&self) -> QueryV {
        self@
    }
}

impl Query {
    pub fn new(comm: EcPoint, rotation: i32, eval: ScalarExpr) -> (r: Self)
        ensures
            r@ == (QueryV { comm: comm@, rotation, eval: eval@ }),
    {
        Query { comm, rotation, eval }
    }

    pub fn comm(&self) -> (r: &EcPoint)
        ensures
            r@ == self@.comm,
    {
        &self.comm
    }

    pub fn rotation(&self) -> (r: i32)
        ensures
            r == self@.rotation,
    {
        self.rotation
    }

    pub fn eval(&self) -> (r: &ScalarExpr)
        ensures
            r@ == self@.eval,
    {
        &self.eval
    }
}

/// Constraint-system metadata: the ordered advice and fixed (column, rotation)
/// query lists, the ordered permutation columns, and the "last row" rotation.
pub struct ConstraintSystemMeta {
    pub advice_queries: Vec<(usize, i32)>,
    pub fixed_queries: Vec<(usize, i32)>,
    pub permutation_columns: Vec<usize>,
    pub rotation_last: i32,
}

/// Evaluations of one permutation grand-product commitment: at rotation 0, at
/// rotation 1, and at the last-row rotation.
pub struct PermutationZEvals {
    pub z: ScalarExpr,
    pub z_next: ScalarExpr,
    pub z_last: ScalarExpr,
}

/// The two permuted commitments of one lookup argument.
pub struct LookupComms {
    pub permuted_input: EcPoint,
    pub permuted_table: EcPoint,
}

/// Evaluations of one lookup argument: its grand product at rotations 0 and 1,
/// the permuted input at rotations 0 and -1, and the permuted table at 0.
pub struct LookupEvals {
    pub z: ScalarExpr,
    pub z_next: ScalarExpr,
    pub input: ScalarExpr,
    pub input_prev: ScalarExpr,
    pub table: ScalarExpr,
}

/// The per-category commitment handles and evaluation expressions consumed by
/// the extractor, plus the calldata offset of the opening-witness elements.
/// `advice_evals` and `fixed_evals` are aligned with the metadata's advice and
/// fixed query lists; the permutation vectors are aligned with each other and
/// with `permutation_columns`.
pub struct Data {
    pub advice_comms: Vec<EcPoint>,
    pub advice_evals: Vec<ScalarExpr>,
    pub fixed_comms: Vec<EcPoint>,
    pub fixed_evals: Vec<ScalarExpr>,
    pub permutation_z_comms: Vec<EcPoint>,
    pub permutation_z_evals: Vec<PermutationZEvals>,
    pub lookup_permuted_comms: Vec<LookupComms>,
    pub lookup_z_comms: Vec<EcPoint>,
    pub lookup_evals: Vec<LookupEvals>,
    pub permutation_comms: Vec<EcPoint>,
    pub permutation_evals: Vec<ScalarExpr>,
    pub quotient_comm: EcPoint,
    pub quotient_eval: ScalarExpr,
    pub random_comm: EcPoint,
    pub random_eval: ScalarExpr,
    pub w_cptr: usize,
}

/// Alignment and index-bound conditions the extractor needs of its inputs.
pub open spec fn inputs_wf(meta: ConstraintSystemMeta, data: Data) -> bool {
    &&& data.advice_evals@.len() == meta.advice_queries@.len()
    &&& forall|i: int|
        0 <= i < meta.advice_queries@.len() ==> (#[trigger] meta.advice_queries@[i]).0
            < data.advice_comms@.len()
    &&& data.fixed_evals@.len() == meta.fixed_queries@.len()
    &&& forall|i: int|
        0 <= i < meta.fixed_queries@.len() ==> (#[trigger] meta.fixed_queries@[i]).0
            < data.fixed_comms@.len()
    &&& data.permutation_z_evals@.len() == data.permutation_z_comms@.len()
    &&& data.lookup_z_comms@.len() == data.lookup_permuted_comms@.len()
    &&& data.lookup_evals@.len() == data.lookup_permuted_comms@.len()
    &&& data.permutation_comms@.len() == meta.permutation_columns@.len()
    &&& data.permutation_evals@.len() == meta.permutation_columns@.len()
}

pub open spec fn advice_item(meta: ConstraintSystemMeta, data: Data, i: int) -> QueryV {
    QueryV {
        comm: data.advice_comms@[meta.advice_queries@[i].0 as int]@,
        rotation: meta.advice_queries@[i].1,
        eval: data.advice_evals@[i]@,
    }
}

pub open spec fn advice_upto(meta: ConstraintSystemMeta, data: Data, n: int) -> Seq<QueryV>
    decreases n,
{
    if n <= 0 {
        Seq::empty()
    } else {
        advice_upto(meta, data, n - 1).push(advice_item(meta, data, n - 1))
    }
}

/// One query per permutation grand-product commitment at rotation 0 and then
/// at rotation 1, pairwise, in order.
pub open spec fn perm_z_open_upto(data: Data, n: int) -> Seq<QueryV>
    decreases n,
{
    if n <= 0 {
        Seq::empty()
    } else {
        perm_z_open_upto(data, n - 1).push(
            QueryV {
                comm: data.permutation_z_comms@[n - 1]@,
                rotation: 0,
                eval: data.permutation_z_evals@[n - 1].z@,
            },
        ).push(
            QueryV {
                comm: data.permutation_z_comms@[n - 1]@,
                rotation: 1,
                eval: data.permutation_z_evals@[n - 1].z_next@,
            },
        )
    }
}

/// All permutation grand-product commitments except the last, in reverse
/// order, each queried at the last-row rotation. `n` counts emitted items:
/// item `k` is commitment `total - 2 - k`.
pub open spec fn perm_z_last_upto(meta: ConstraintSystemMeta, data: Data, n: int) -> Seq<QueryV>
    decreases n,
{
    let total = data.permutation_z_comms@.len() as int;
    if n <= 0 {
        Seq::empty()
    } else {
        perm_z_last_upto(meta, data, n - 1).push(
            QueryV {
                comm: data.permutation_z_comms@[total - 1 - n]@,
                rotation: meta.rotation_last,
                eval: data.permutation_z_evals@[total - 1 - n].z_last@,
            },
        )
    }
}

/// The five queries of one lookup argument: z at 0, permuted input at 0,
/// permuted table at 0, permuted input at -1, z at 1.
pub open spec fn lookup_items(data: Data, i: int) -> Seq<QueryV> {
    seq![
        QueryV { comm: data.lookup_z_comms@[i]@, rotation: 0, eval: data.lookup_evals@[i].z@ },
        QueryV {
            comm: data.lookup_permuted_comms@[i].permuted_input@,
            rotation: 0,
            eval: data.lookup_evals@[i].input@,
        },
        QueryV {
            comm: data.lookup_permuted_comms@[i].permuted_table@,
            rotation: 0,
            eval: data.lookup_evals@[i].table@,
        },
        QueryV {
            comm: data.lookup_permuted_comms@[i].permuted_input@,
            rotation: -1i32,
            eval: data.lookup_evals@[i].input_prev@,
        },
        QueryV {
            comm: data.lookup_z_comms@[i]@,
            rotation: 1,
            eval: data.lookup_evals@[i].z_next@,
        },
    ]
}

pub open spec fn lookup_upto(data: Data, n: int) -> Seq<QueryV>
    decreases n,
{
    if n <= 0 {
        Seq::empty()
    } else {
        lookup_upto(data, n - 1) + lookup_items(data, n - 1)
    }
}

pub open spec fn fixed_item(meta: ConstraintSystemMeta, data: Data, i: int) -> QueryV {
    QueryV {
        comm: data.fixed_comms@[meta.fixed_queries@[i].0 as int]@,
        rotation: meta.fixed_queries@[i].1,
        eval: data.fixed_evals@[i]@,
    }
}

pub open spec fn fixed_upto(meta: ConstraintSystemMeta, data: Data, n: int) -> Seq<QueryV>
    decreases n,
{
    if n <= 0 {
        Seq::empty()
    } else {
        fixed_upto(meta, data, n - 1).push(fixed_item(meta, data, n - 1))
    }
}

/// One query per permutation column commitment at rotation 0.
pub open spec fn perm_col_upto(data: Data, n: int) -> Seq<QueryV>
    decreases n,
{
    if n <= 0 {
        Seq::empty()
    } else {
        perm_col_upto(data, n - 1).push(
            QueryV {
                comm: data.permutation_comms@[n - 1]@,
                rotation: 0,
                eval: data.permutation_evals@[n - 1]@,
            },
        )
    }
}

/// The full canonical query list, in the fixed composition order: advice
/// queries, permutation grand products at 0 and 1, all-but-last grand products
/// at the last-row rotation in reverse, five queries per lookup argument,
/// fixed queries, permutation columns at 0, then the quotient and the random
/// commitment at 0.
pub open spec fn spec_queries(meta: ConstraintSystemMeta, data: Data) -> Seq<QueryV> {
    advice_upto(meta, data, meta.advice_queries@.len() as int)
        + perm_z_open_upto(data, data.permutation_z_comms@.len() as int)
        + perm_z_last_upto(
        meta,
        data,
        if data.permutation_z_comms@.len() == 0 {
            0
        } else {
            data.permutation_z_comms@.len() - 1
        } as int,
    ) + lookup_upto(data, data.lookup_z_comms@.len() as int)
        + fixed_upto(meta, data, meta.fixed_queries@.len() as int)
        + perm_col_upto(data, meta.permutation_columns@.len() as int)
        + seq![
        QueryV { comm: data.quotient_comm@, rotation: 0, eval: data.quotient_eval@ },
        QueryV { comm: data.random_comm@, rotation: 0, eval: data.random_eval@ },
    ]
}

/// Builds the canonical ordered query list. The order is the external
/// contract: it fixes all downstream set order and memory addresses.
pub fn queries(meta: &ConstraintSystemMeta, data: &Data) -> (r: Vec<Query>)
    requires
        inputs_wf(*meta, *data),
    ensures
        r.deep_view() == spec_queries(*meta, *data),
        r@.len() >= 2,
{
    let mut out: Vec<Query> = Vec::new();

    let mut i: usize = 0;
    while i < meta.advice_queries.len()
        invariant
            inputs_wf(*meta, *data),
            i <= meta.advice_queries@.len(),
            out.deep_view() == advice_upto(*meta, *data, i as int),
        decreases meta.advice_queries@.len() - i,
    {
        let (column, rotation) = meta.advice_queries[i];
        let comm = data.advice_comms[column].clone();
        let eval = data.advice_evals[i].clone();
        out.push(Query::new(comm, rotation, eval));
        proof {
            assert(out.deep_view() =~= advice_upto(*meta, *data, i + 1));
        }
        i += 1;
    }
    let ghost seg1 = advice_upto(*meta, *data, meta.advice_queries@.len() as int);

    let mut i: usize = 0;
    while i < data.permutation_z_comms.len()
        invariant
            inputs_wf(*meta, *data),
            i <= data.permutation_z_comms@.len(),
            out.deep_view() == seg1 + perm_z_open_upto(*data, i as int),
        decreases data.permutation_z_comms@.len() - i,
    {
        let comm = &data.permutation_z_comms[i];
        let evals = &data.permutation_z_evals[i];
        let qa = Query::new(comm.clone(), 0, evals.z.clone());
        let qb = Query::new(comm.clone(), 1, evals.z_next.clone());
        let ghost qav = qa@;
        let ghost qbv = qb@;
        let ghost dv0 = out.deep_view();
        let ghost v0 = out@;
        out.push(qa);
        out.push(qb);
        proof {
            assert(out@ == v0.push(qa).push(qb));
            assert(out.deep_view() =~= dv0.push(qav).push(qbv));
            assert(perm_z_open_upto(*data, i + 1) =~= perm_z_open_upto(
                *data,
                i as int,
            ).push(qav).push(qbv));
            assert(out.deep_view() =~= seg1 + perm_z_open_upto(*data, i + 1));
        }
        i += 1;
    }
    let ghost seg2 = seg1 + perm_z_open_upto(*data, data.permutation_z_comms@.len() as int);

    let total = data.permutation_z_comms.len();
    let ghost last_count: int = if total == 0 {
        0
    } else {
        total - 1
    };
    if total > 0 {
        let mut i: usize = total - 1;
        while i > 0
            invariant
                inputs_wf(*meta, *data),
                total == data.permutation_z_comms@.len(),
                total >= 1,
                i <= total - 1,
                out.deep_view() == seg2 + perm_z_last_upto(*meta, *data, total - 1 - i),
            decreases i,
        {
            i -= 1;
            let comm = &data.permutation_z_comms[i];
            let evals = &data.permutation_z_evals[i];
            let q = Query::new(comm.clone(), meta.rotation_last, evals.z_last.clone());
            let ghost qv = q@;
            let ghost dv0 = out.deep_view();
            let ghost v0 = out@;
            out.push(q);
            proof {
                assert(out@ == v0.push(q));
                assert(out.deep_view() =~= dv0.push(qv));
                assert(perm_z_last_upto(*meta, *data, total - 1 - i) =~= perm_z_last_upto(
                    *meta,
                    *data,
                    total - 2 - i,
                ).push(qv));
                assert(out.deep_view() =~= seg2 + perm_z_last_upto(*meta, *data, total - 1 - i));
            }
        }
    }
    let ghost seg3 = seg2 + perm_z_last_upto(*meta, *data, last_count);

    let mut i: usize = 0;
    while i < data.lookup_z_comms.len()
        invariant
            inputs_wf(*meta, *data),
            i <= data.lookup_z_comms@.len(),
            out.deep_view() == seg3 + lookup_upto(*data, i as int),
        decreases data.lookup_z_comms@.len() - i,
    {
        let z_comm = &data.lookup_z_comms[i];
        let permuted = &data.lookup_permuted_comms[i];
        let evals = &data.lookup_evals[i];
        let q0 = Query::new(z_comm.clone(), 0, evals.z.clone());
        let q1 = Query::new(permuted.permuted_input.clone(), 0, evals.input.clone());
        let q2 = Query::new(permuted.permuted_table.clone(), 0, evals.table.clone());
        let q3 = Query::new(permuted.permuted_input.clone(), -1, evals.input_prev.clone());
        let q4 = Query::new(z_comm.clone(), 1, evals.z_next.clone());
        let ghost qs = seq![q0@, q1@, q2@, q3@, q4@];
        let ghost dv0 = out.deep_view();
        let ghost v0 = out@;
        out.push(q0);
        out.push(q1);
        out.push(q2);
        out.push(q3);
        out.push(q4);
        proof {
            assert(out@ == v0.push(q0).push(q1).push(q2).push(q3).push(q4));
            assert(out.deep_view() =~= dv0 + qs);
            assert(lookup_items(*data, i as int) =~= qs);
            assert(lookup_upto(*data, i + 1) == lookup_upto(*data, i as int) + lookup_items(
                *data,
                i as int,
            ));
            assert(out.deep_view() =~= seg3 + lookup_upto(*data, i + 1));
        }
        i += 1;
    }
    let ghost seg4 = seg3 + lookup_upto(*data, data.lookup_z_comms@.len() as int);

    let mut i: usize = 0;
    while i < meta.fixed_queries.len()
        invariant
            inputs_wf(*meta, *data),
            i <= meta.fixed_queries@.len(),
            out.deep_view() == seg4 + fixed_upto(*meta, *data, i as int),
        decreases meta.fixed_queries@.len() - i,
    {
        let (column, rotation) = meta.fixed_queries[i];
        let comm = data.fixed_comms[column].clone();
        let eval = data.fixed_evals[i].clone();
        let q = Query::new(comm, rotation, eval);
        let ghost qv = q@;
        let ghost dv0 = out.deep_view();
        let ghost v0 = out@;
        out.push(q);
        proof {
            assert(out@ == v0.push(q));
            assert(out.deep_view() =~= dv0.push(qv));
            assert(fixed_upto(*meta, *data, i + 1) =~= fixed_upto(*meta, *data, i as int).push(qv));
            assert(out.deep_view() =~= seg4 + fixed_upto(*meta, *data, i + 1));
        }
        i += 1;
    }
    let ghost seg5 = seg4 + fixed_upto(*meta, *data, meta.fixed_queries@.len() as int);

    let mut i: usize = 0;
    while i < meta.permutation_columns.len()
        invariant
            inputs_wf(*meta, *data),
            i <= meta.permutation_columns@.len(),
            out.deep_view() == seg5 + perm_col_upto(*data, i as int),
        decreases meta.permutation_columns@.len() - i,
    {
        let comm = data.permutation_comms[i].clone();
        let eval = data.permutation_evals[i].clone();
        let q = Query::new(comm, 0, eval);
        let ghost qv = q@;
        let ghost dv0 = out.deep_view();
        let ghost v0 = out@;
        out.push(q);
        proof {
            assert(out@ == v0.push(q));
            assert(out.deep_view() =~= dv0.push(qv));
            assert(perm_col_upto(*data, i + 1) =~= perm_col_upto(*data, i as int).push(qv));
            assert(out.deep_view() =~= seg5 + perm_col_upto(*data, i + 1));
        }
        i += 1;
    }
    let ghost seg6 = seg5 + perm_col_upto(*data, meta.permutation_columns@.len() as int);

    let qq = Query::new(data.quotient_comm.clone(), 0, data.quotient_eval.clone());
    let qr = Query::new(data.random_comm.clone(), 0, data.random_eval.clone());
    let ghost qqv = qq@;
    let ghost qrv = qr@;
    let ghost dv0 = out.deep_view();
    let ghost v0 = out@;
    out.push(qq);
    out.push(qr);
    proof {
        assert(out@ == v0.push(qq).push(qr));
        assert(out.deep_view() =~= dv0.push(qqv).push(qrv));
        assert(out.deep_view() =~= spec_queries(*meta, *data));
    }
    out
}

} // verus!
