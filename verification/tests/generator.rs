use shplonk_codegen::emit::{emit, Instr, Loc, Operand, ExtReg};
use shplonk_codegen::expr::{EcPoint, ScalarExpr};
use shplonk_codegen::layout::plan_layout;
use shplonk_codegen::pcs::shplonk_computations;
use shplonk_codegen::query::{queries, ConstraintSystemMeta, Data, LookupComms, LookupEvals,
                             PermutationZEvals, Query};
use shplonk_codegen::sets::{rotation_sets, PcsError};

fn point(tag: &str) -> EcPoint {
    EcPoint::new(format!("{tag}_x"), format!("{tag}_y"))
}

fn expr(tag: &str) -> ScalarExpr {
    ScalarExpr::new(tag.to_string())
}

fn empty_meta() -> ConstraintSystemMeta {
    ConstraintSystemMeta {
        advice_queries: vec![],
        fixed_queries: vec![],
        permutation_columns: vec![],
        rotation_last: -6,
    }
}

fn empty_data() -> Data {
    Data {
        advice_comms: vec![],
        advice_evals: vec![],
        fixed_comms: vec![],
        fixed_evals: vec![],
        permutation_z_comms: vec![],
        permutation_z_evals: vec![],
        lookup_permuted_comms: vec![],
        lookup_z_comms: vec![],
        lookup_evals: vec![],
        permutation_comms: vec![],
        permutation_evals: vec![],
        quotient_comm: point("quotient"),
        quotient_eval: expr("quotient_eval"),
        random_comm: point("random"),
        random_eval: expr("random_eval"),
        w_cptr: 0x200,
    }
}

/// A small but complete input: two advice columns queried at rotations 0 and
/// 1, one permutation grand product, one fixed column, one permutation column.
fn sample_meta() -> ConstraintSystemMeta {
    ConstraintSystemMeta {
        advice_queries: vec![(0, 0), (1, 0), (0, 1)],
        fixed_queries: vec![(0, 0)],
        permutation_columns: vec![7],
        rotation_last: -6,
    }
}

fn sample_data() -> Data {
    Data {
        advice_comms: vec![point("advice0"), point("advice1")],
        advice_evals: vec![expr("a0_eval"), expr("a1_eval"), expr("a0_next_eval")],
        fixed_comms: vec![point("fixed0")],
        fixed_evals: vec![expr("f0_eval")],
        permutation_z_comms: vec![point("perm_z0"), point("perm_z1")],
        permutation_z_evals: vec![
            PermutationZEvals { z: expr("z0"), z_next: expr("z0_next"), z_last: expr("z0_last") },
            PermutationZEvals { z: expr("z1"), z_next: expr("z1_next"), z_last: expr("z1_last") },
        ],
        lookup_permuted_comms: vec![LookupComms {
            permuted_input: point("lk_input"),
            permuted_table: point("lk_table"),
        }],
        lookup_z_comms: vec![point("lk_z")],
        lookup_evals: vec![LookupEvals {
            z: expr("lk_z_eval"),
            z_next: expr("lk_z_next"),
            input: expr("lk_in"),
            input_prev: expr("lk_in_prev"),
            table: expr("lk_tbl"),
        }],
        permutation_comms: vec![point("perm_col")],
        permutation_evals: vec![expr("perm_col_eval")],
        ..empty_data()
    }
}

#[test]
fn extractor_composition_order() {
    let meta = sample_meta();
    let data = sample_data();
    let qs = queries(&meta, &data);
    // advice(3), perm z open(2*2), perm z last(1), lookup(5), fixed(1),
    // perm col(1), quotient, random
    assert_eq!(qs.len(), 3 + 4 + 1 + 5 + 1 + 1 + 2);
    let rotations: Vec<i32> = qs.iter().map(|q| q.rotation()).collect();
    assert_eq!(
        rotations,
        vec![0, 0, 1, 0, 1, 0, 1, -6, 0, 0, 0, -1, 1, 0, 0, 0, 0]
    );
    // the reverse-order last-row query belongs to the first grand product
    assert_eq!(qs[7].comm().x().as_str(), "perm_z0_x");
    // the five lookup queries: z, input, table, input at -1, z at 1
    assert_eq!(qs[8].comm().x().as_str(), "lk_z_x");
    assert_eq!(qs[9].comm().x().as_str(), "lk_input_x");
    assert_eq!(qs[10].comm().x().as_str(), "lk_table_x");
    assert_eq!(qs[11].comm().x().as_str(), "lk_input_x");
    assert_eq!(qs[12].comm().x().as_str(), "lk_z_x");
    assert_eq!(qs[15].comm().x().as_str(), "quotient_x");
    assert_eq!(qs[16].comm().x().as_str(), "random_x");
}

#[test]
fn two_commitments_share_one_rotation_set() {
    let a = point("a");
    let b = point("b");
    let c = point("c");
    let qs = vec![
        Query::new(a.clone(), 0, expr("a0")),
        Query::new(a.clone(), 1, expr("a1")),
        Query::new(b.clone(), 0, expr("b0")),
        Query::new(b.clone(), 1, expr("b1")),
        Query::new(c.clone(), 2, expr("c2")),
    ];
    let (superset, sets) = rotation_sets(&qs).unwrap();
    assert_eq!(superset, vec![0, 1, 2]);
    assert_eq!(sets.len(), 2);
    // exactly one set holds both a and b, with diffs the rest of the superset
    let ab = &sets[0];
    assert_eq!(ab.rotations(), &vec![0, 1]);
    assert_eq!(ab.diffs(), &vec![2]);
    assert_eq!(ab.comms().len(), 2);
    assert!(ab.comms()[0].same(&a));
    assert!(ab.comms()[1].same(&b));
    assert!(!sets[1].comms()[0].same(&a));
    assert!(!sets[1].comms()[0].same(&b));
    // evaluation rows follow ascending rotation order per commitment
    assert_eq!(ab.evals()[0][0].text().as_str(), "a0");
    assert_eq!(ab.evals()[0][1].text().as_str(), "a1");
    assert_eq!(ab.evals()[1][0].text().as_str(), "b0");
}

#[test]
fn lookup_triple_distributes_into_three_sets() {
    let meta = empty_meta();
    let data = Data {
        lookup_permuted_comms: vec![LookupComms {
            permuted_input: point("lk_input"),
            permuted_table: point("lk_table"),
        }],
        lookup_z_comms: vec![point("lk_z")],
        lookup_evals: vec![LookupEvals {
            z: expr("lk_z_eval"),
            z_next: expr("lk_z_next"),
            input: expr("lk_in"),
            input_prev: expr("lk_in_prev"),
            table: expr("lk_tbl"),
        }],
        ..empty_data()
    };
    let qs = queries(&meta, &data);
    // exactly five lookup queries with rotations {0, 0, 0, -1, 1}, then the
    // quotient and random queries at rotation 0
    assert_eq!(qs.len(), 7);
    let lookup_rots: Vec<i32> = qs.iter().take(5).map(|q| q.rotation()).collect();
    assert_eq!(lookup_rots, vec![0, 0, 0, -1, 1]);
    let (superset, sets) = rotation_sets(&qs).unwrap();
    assert_eq!(superset, vec![-1, 0, 1]);
    // z has {0,1}; permuted input has {-1,0}; table, quotient and random all
    // have exactly {0} and therefore share one set
    assert_eq!(sets.len(), 3);
    assert_eq!(sets[0].rotations(), &vec![0, 1]);
    assert!(sets[0].comms()[0].same(&point("lk_z")));
    assert_eq!(sets[1].rotations(), &vec![-1, 0]);
    assert!(sets[1].comms()[0].same(&point("lk_input")));
    assert_eq!(sets[2].rotations(), &vec![0]);
    assert_eq!(sets[2].comms().len(), 3);
    assert!(sets[2].comms()[0].same(&point("lk_table")));
    assert!(sets[2].comms()[1].same(&point("quotient")));
    assert!(sets[2].comms()[2].same(&point("random")));
    // every set's rotations lie in the superset, diffs are the exact
    // complement, and every commitment sits in exactly one set
    for set in &sets {
        for r in set.rotations() {
            assert!(superset.contains(r));
        }
        let mut merged: Vec<i32> = set.rotations().clone();
        merged.extend(set.diffs().iter().copied());
        merged.sort();
        assert_eq!(merged, superset);
        for r in set.diffs() {
            assert!(!set.rotations().contains(r));
        }
    }
    for (i, set) in sets.iter().enumerate() {
        for comm in set.comms() {
            for (j, other) in sets.iter().enumerate() {
                let members = other.comms().iter().filter(|c| c.same(comm)).count();
                assert_eq!(members, if i == j { 1 } else { 0 });
            }
        }
    }
}

#[test]
fn duplicate_query_is_fatal() {
    let a = point("a");
    let qs = vec![
        Query::new(a.clone(), 0, expr("a0")),
        Query::new(a.clone(), 0, expr("a0_again")),
    ];
    assert_eq!(rotation_sets(&qs), Err(PcsError::DuplicateQuery));
}

#[test]
fn shared_lookup_handle_is_a_duplicate() {
    // the permuted table reusing the permuted input's handle repeats a
    // (commitment, rotation 0) pair
    let meta = empty_meta();
    let data = Data {
        lookup_permuted_comms: vec![LookupComms {
            permuted_input: point("lk_shared"),
            permuted_table: point("lk_shared"),
        }],
        lookup_z_comms: vec![point("lk_z")],
        lookup_evals: vec![LookupEvals {
            z: expr("lk_z_eval"),
            z_next: expr("lk_z_next"),
            input: expr("lk_in"),
            input_prev: expr("lk_in_prev"),
            table: expr("lk_tbl"),
        }],
        ..empty_data()
    };
    let qs = queries(&meta, &data);
    assert_eq!(rotation_sets(&qs), Err(PcsError::DuplicateQuery));
    assert_eq!(
        shplonk_computations(&meta, &data),
        Err(PcsError::DuplicateQuery)
    );
}

#[test]
fn empty_query_list_means_empty_superset() {
    assert_eq!(rotation_sets(&vec![]), Err(PcsError::EmptySuperset));
}

#[test]
fn emit_rejects_empty_superset_and_empty_sets() {
    let l0 = plan_layout(0, &vec![], 0);
    assert_eq!(emit(&vec![], &vec![], &l0), Err(PcsError::EmptySuperset));
    let l1 = plan_layout(1, &vec![], 0);
    assert_eq!(emit(&vec![0], &vec![], &l1), Err(PcsError::EmptyRotationSet));
}

#[test]
fn set_covering_whole_superset_has_empty_diffs() {
    // only the quotient and random queries, both at rotation 0: one set whose
    // rotations equal the superset, so no diff rotation seeds the inversion
    let meta = empty_meta();
    let data = empty_data();
    assert_eq!(shplonk_computations(&meta, &data), Err(PcsError::EmptyDiffs));
}

#[test]
fn layout_formulas_are_exact() {
    let l = plan_layout(3, &vec![2, 1], 0x100);
    assert_eq!(l.diff_0, 0x00);
    assert_eq!(l.coeff, vec![0x20, 0x60]);
    assert_eq!(l.batch_inv_1_end, (1 + 3) * 0x20);
    assert_eq!(l.batch_inv_2_end, 2 * 0x20);
    assert_eq!(l.free, 2 * 0x80 + 6 * 0x20);
    assert_eq!(l.mu_minus_point, l.free + 3 * 0x20);
    assert_eq!(l.vanishing, l.free + 6 * 0x20);
    assert_eq!(l.diff, l.vanishing + 0x20);
    assert_eq!(l.r_eval, l.diff + 2 * 0x20);
    assert_eq!(l.sum, l.r_eval + 2 * 0x20);
    assert_eq!(l.end, l.sum + 2 * 0x20);
    assert_eq!(l.w_cptr, 0x100);
    assert_eq!(l.w_prime_cptr, 0x140);
    // regions do not collide: the free region starts past twice the first
    // batch-inversion block
    assert!(l.free >= 2 * l.batch_inv_1_end);
    assert!(l.mu_minus_point >= l.free + 3 * 0x20);
}

#[test]
fn generation_is_deterministic() {
    let g1 = shplonk_computations(&sample_meta(), &sample_data()).unwrap();
    let g2 = shplonk_computations(&sample_meta(), &sample_data()).unwrap();
    assert_eq!(g1, g2);
    let qs1 = queries(&sample_meta(), &sample_data());
    let qs2 = queries(&sample_meta(), &sample_data());
    let (sup1, sets1) = rotation_sets(&qs1).unwrap();
    let (sup2, sets2) = rotation_sets(&qs2).unwrap();
    assert_eq!(sup1, sup2);
    assert_eq!(sets1.len(), sets2.len());
    for (s1, s2) in sets1.iter().zip(sets2.iter()) {
        assert_eq!(s1.rotations(), s2.rotations());
        assert_eq!(s1.diffs(), s2.diffs());
        assert_eq!(s1.comms().len(), s2.comms().len());
        for (c1, c2) in s1.comms().iter().zip(s2.comms().iter()) {
            assert!(c1.same(c2));
        }
    }
}

#[test]
fn program_shape_and_aggregate_fold_count() {
    let meta = sample_meta();
    let data = sample_data();
    let qs = queries(&meta, &data);
    let (_, sets) = rotation_sets(&qs).unwrap();
    let n = sets.len();
    let groups = shplonk_computations(&meta, &data).unwrap();
    // two leading groups, n coefficient groups, the first inversion, n
    // weighted-evaluation groups, n sum groups, the aggregate, the msm
    assert_eq!(groups.len(), 3 * n + 5);
    // the aggregate group folds exactly n - 1 times
    let agg = &groups[groups.len() - 2];
    let folds = agg
        .iter()
        .filter(|i| matches!(i, Instr::AddMul { .. }))
        .count();
    assert_eq!(folds, n - 1);
    let nu_scalings = agg
        .iter()
        .filter(|i| matches!(i, Instr::MulBy { src: Operand::Reg(ExtReg::Nu), .. }))
        .count();
    assert_eq!(nu_scalings, n - 1);
}

#[test]
fn mu_minus_point_table_follows_the_layout() {
    let qs = queries(&sample_meta(), &sample_data());
    let (superset, sets) = rotation_sets(&qs).unwrap();
    let sizes: Vec<usize> = sets.iter().map(|s| s.rotations().len()).collect();
    let layout = plan_layout(superset.len(), &sizes, sample_data().w_cptr);
    let groups = shplonk_computations(&sample_meta(), &sample_data()).unwrap();
    let stage = &groups[1];
    // one mu-minus-point word per superset rotation, in superset order
    assert_eq!(
        stage[0],
        Instr::StoreDiff {
            dst: Loc::Mem(layout.mu_minus_point),
            a: Operand::Reg(ExtReg::Mu),
            b: Operand::Mem(layout.free),
        }
    );
    assert_eq!(
        stage[superset.len() - 1],
        Instr::StoreDiff {
            dst: Loc::Mem(layout.mu_minus_point + 0x20 * (superset.len() - 1)),
            a: Operand::Reg(ExtReg::Mu),
            b: Operand::Mem(layout.free + 0x20 * (superset.len() - 1)),
        }
    );
    // the vanishing factor lands in its slot right after the first set's
    // rotation products
    let van_at = superset.len() + sets[0].rotations().len();
    assert_eq!(
        stage[van_at],
        Instr::Store { dst: Loc::Mem(layout.vanishing), src: Operand::Acc }
    );
}

#[test]
fn power_table_opens_the_program() {
    let groups = shplonk_computations(&sample_meta(), &sample_data()).unwrap();
    let power = &groups[0];
    assert_eq!(
        power[0],
        Instr::Store { dst: Loc::Acc, src: Operand::Reg(ExtReg::X) }
    );
    assert_eq!(
        power[1],
        Instr::MulBy { dst: Loc::Acc, src: Operand::Reg(ExtReg::Omega) }
    );
    // the program ends with the pairing right-hand operand read from the
    // opening witness
    let msm = groups.last().unwrap();
    let qs = queries(&sample_meta(), &sample_data());
    let (superset, sets) = rotation_sets(&qs).unwrap();
    let sizes: Vec<usize> = sets.iter().map(|s| s.rotations().len()).collect();
    let layout = plan_layout(superset.len(), &sizes, sample_data().w_cptr);
    assert_eq!(
        *msm.last().unwrap(),
        Instr::Store {
            dst: Loc::Reg(ExtReg::PairingRhsY),
            src: Operand::Calldata(layout.w_prime_cptr + 0x20),
        }
    );
    // emitting from the same partition and layout twice is byte-identical
    let direct1 = emit(&superset, &sets, &layout).unwrap();
    let direct2 = emit(&superset, &sets, &layout).unwrap();
    assert_eq!(direct1, direct2);
    assert_eq!(direct1, groups);
}
