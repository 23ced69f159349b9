//! The generator's entry point for the BDFG21 batched opening scheme: extract
//! the canonical query list, partition it into rotation sets, plan the
//! scratch-memory layout, and emit the instruction program. One synchronous
//! pass over read-only input; identical input yields identical output.

use vstd::prelude::*;
use crate::query::{ConstraintSystemMeta, Data, inputs_wf, spec_queries, queries};
use crate::sets::{
    PcsError, qviews, duplicate_query, superset_of, spec_rotation_sets, rotation_sets,
    lemma_rotation_sets_wf, lemma_superset_covers, sum_sizes, RotationSetV,
};
use crate::layout::{spec_layout, sizes_int, seq_sum, plan_layout, LayoutV};
use crate::emit::{
    Instr, emit, spec_program, set_sizes_of, some_diffs_empty, emit_inputs_wf, set_shape,
};

verus! {

/// `seq_sum` over the size images agrees with `sum_sizes` over the sets.
proof fn lemma_sum_sizes_agree(sv: Seq<RotationSetV>)
    ensures
        seq_sum(set_sizes_of(sv)) == sum_sizes(sv),
    decreases sv.len(),
{
    if sv.len() > 0 {
        lemma_sum_sizes_agree(sv.drop_last());
        assert(set_sizes_of(sv).drop_last() =~= set_sizes_of(sv.drop_last()));
        assert(set_sizes_of(sv).last() == sv.last().rotations.len() as int);
    }
}

/// Each set's rotation count is at most the total over all sets.
proof fn lemma_size_below_sum(sv: Seq<RotationSetV>, i: int)
    requires
        0 <= i < sv.len(),
    ensures
        sv[i].rotations.len() <= sum_sizes(sv),
    decreases sv.len(),
{
    if i == sv.len() - 1 {
        crate::layout::lemma_seq_sum_nonneg(set_sizes_of(sv.drop_last()));
        lemma_sum_sizes_agree(sv.drop_last());
    } else {
        lemma_size_below_sum(sv.drop_last(), i);
        assert(sv.drop_last()[i] == sv[i]);
    }
}

/// The layout the generator plans for a given query list: superset size and
/// per-set rotation counts from the partition, calldata base from the data.
pub open spec fn spec_plan_for(qs: Seq<crate::query::QueryV>, w: int) -> LayoutV {
    spec_layout(superset_of(qs).len() as int, set_sizes_of(spec_rotation_sets(qs)), w)
}

/// Generates the SHPLONK batched-opening instruction program from constraint
/// metadata and the per-category commitment and evaluation data. Succeeds on
/// exactly the inputs with no duplicate (commitment, rotation) query and no
/// rotation set covering the whole superset; structural faults abort with no
/// partial output. The result is pinned to the spec-level pipeline, so equal
/// inputs give identical programs and addresses.
pub fn shplonk_computations(meta: &ConstraintSystemMeta, data: &Data) -> (r: Result<
    Vec<Vec<Instr>>,
    PcsError,
>)
    requires
        inputs_wf(*meta, *data),
        spec_queries(*meta, *data).len() <= 0x10000,
        data.w_cptr <= 0x1000_0000,
    ensures
        match r {
            Ok(groups) => {
                let qs = spec_queries(*meta, *data);
                &&& !duplicate_query(qs)
                &&& !some_diffs_empty(spec_rotation_sets(qs))
                &&& groups.deep_view() == spec_program(
                    superset_of(qs),
                    spec_rotation_sets(qs),
                    spec_plan_for(qs, data.w_cptr as int),
                )
            },
            Err(PcsError::DuplicateQuery) => duplicate_query(spec_queries(*meta, *data)),
            Err(PcsError::EmptyDiffs) => !duplicate_query(spec_queries(*meta, *data))
                && some_diffs_empty(spec_rotation_sets(spec_queries(*meta, *data))),
            Err(_) => false,
        },
{
    let ghost qv = spec_queries(*meta, *data);
    let qs = queries(meta, data);
    proof {
        assert(qviews(qs@) =~= qs.deep_view());
        assert(qviews(qs@) == qv);
    }
    let (superset, sets) = match rotation_sets(&qs) {
        Ok(x) => x,
        Err(e) => {
            return Err(e);
        },
    };
    let ghost sv = spec_rotation_sets(qv);
    let ghost sup = superset_of(qv);
    proof {
        lemma_rotation_sets_wf(qv);
        lemma_superset_covers(qv);
        lemma_sum_sizes_agree(sv);
        crate::layout::lemma_seq_sum_nonneg(set_sizes_of(sv));
    }
    let mut set_sizes: Vec<usize> = Vec::new();
    let mut i: usize = 0;
    while i < sets.len()
        invariant
            sv == sets.deep_view(),
            i <= sv.len(),
            set_sizes@.len() == i,
            forall|k: int|
                0 <= k < i ==> (#[trigger] set_sizes@[k]) as int == sv[k].rotations.len(),
        decreases sv.len() - i,
    {
        proof {
            assert(sets.deep_view()[i as int] == sets@[i as int]@);
        }
        set_sizes.push(sets[i].rotations().len());
        i += 1;
    }
    proof {
        assert(sizes_int(set_sizes@) =~= set_sizes_of(sv));
        assert forall|k: int| 0 <= k < sv.len() implies set_sizes@[k] <= 0x10000 by {
            lemma_size_below_sum(sv, k);
        }
        assert(superset@.len() == sup.len());
    }
    let layout = plan_layout(superset.len(), &set_sizes, data.w_cptr);
    proof {
        // the random commitment is always queried at rotation zero, so the
        // superset is anchored there
        assert(qv.len() >= 2);
        assert(qv[qv.len() - 1].rotation == 0);
        crate::sets::lemma_superset_upto_props(qv, qv.len() as int);
        assert(sup.contains(0i32));
        assert forall|k: int| 0 <= k < sv.len() implies set_shape(sup, #[trigger] sv[k]) by {
            assert(crate::sets::set_wf(sup, sv[k]));
        }
        assert(layout@.w_cptr == data.w_cptr as int);
        assert(emit_inputs_wf(superset@, sets.deep_view(), layout@));
    }
    match emit(&superset, &sets, &layout) {
        Ok(groups) => {
            proof {
                assert(groups.deep_view() == spec_program(
                    sup,
                    sv,
                    spec_plan_for(qv, data.w_cptr as int),
                ));
            }
            Ok(groups)
        },
        Err(e) => {
            proof {
                // an empty superset or an empty rotation set cannot come out
                // of the partitioner on a non-empty query list
                assert(e != PcsError::EmptySuperset);
                assert(e != PcsError::EmptyRotationSet);
            }
            Err(e)
        },
    }
}

} // verus!
