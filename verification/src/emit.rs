//! Instruction emission: consumes the rotation sets and the layout and
//! produces the ordered instruction program implementing the batched opening
//! check — power table, mu-minus-point table, vanishing factor, per-set diff
//! products, barycentric coefficients, two batch inversions, weighted
//! evaluation accumulation, the aggregate evaluation, multi-scalar
//! accumulation, and the pairing operands. Every stage's output is pinned to a
//! spec-level mirror, so identical (sets, layout) input yields identical
//! instruction output.

use vstd::prelude::*;
use crate::expr::ScalarExpr;
use crate::layout::{Layout, LayoutV, spec_layout, seq_sum};
use crate::sets::{RotationSet, RotationSetV, PcsError, sorted_unique, insert_pos, diffs_of};
use crate::sets::{find_insert_pos, lemma_insert_pos_unique, lemma_sorted_contains_at_pos, lemma_insert_pos_bounds};

verus! {

/// The well-known external registers the generated program reads and writes.
/// These names are a binding contract with the downstream assembler: the
/// evaluation point `x`, the domain generator and its inverse, the verifier
/// challenges, the curve generator, and the output slots.
#[derive(Clone, Copy, Debug, PartialEq, Eq, Structural)]
pub enum ExtReg {
    X,
    Omega,
    OmegaInv,
    Mu,
    Zeta,
    Nu,
    G1X,
    G1Y,
    REval,
    PairingLhsX,
    PairingLhsY,
    PairingRhsX,
    PairingRhsY,
}

/// Destination of a scalar instruction: the single running accumulator local,
/// a scratch word, or a named external register.
#[derive(Clone, Copy, Debug, PartialEq, Eq, Structural)]
pub enum Loc {
    Acc,
    Mem(usize),
    Reg(ExtReg),
}

/// Mathematical image of an operand.
pub ghost enum OperandV {
    Acc,
    Mem(int),
    Reg(ExtReg),
    Calldata(int),
    Lit(u64),
    Expr(Seq<char>),
}

/// Source of a scalar instruction: the accumulator, a scratch word, a named
/// register, a calldata word of the proof, a literal, or a rendered caller
/// expression copied verbatim into the program.
#[derive(Clone, Debug, PartialEq, Eq)]
pub enum Operand {
    Acc,
    Mem(usize),
    Reg(ExtReg),
    Calldata(usize),
    Lit(u64),
    Expr(ScalarExpr),
}

impl View for Operand {
    type V = OperandV;

    open spec fn view(&self) -> OperandV {
        match self {
            Operand::Acc => OperandV::Acc,
            Operand::Mem(a) => OperandV::Mem(*a as int),
            Operand::Reg(r) => OperandV::Reg(*r),
            Operand::Calldata(a) => OperandV::Calldata(*a as int),
            Operand::Lit(v) => OperandV::Lit(*v),
            Operand::Expr(e) => OperandV::Expr(e@),
        }
    }
}

/// Mathematical image of a destination.
pub ghost enum LocV {
    Acc,
    Mem(int),
    Reg(ExtReg),
}

impl View for Loc {
    type V = LocV;

    open spec fn view(&self) -> LocV {
        match self {
            Loc::Acc => LocV::Acc,
            Loc::Mem(a) => LocV::Mem(*a as int),
            Loc::Reg(r) => LocV::Reg(*r),
        }
    }
}

/// Mathematical image of an instruction.
pub ghost enum InstrV {
    Store { dst: LocV, src: OperandV },
    StoreDiff { dst: LocV, a: OperandV, b: OperandV },
    MulBy { dst: LocV, src: OperandV },
    MulByDiff { dst: LocV, a: OperandV, b: OperandV },
    AddMul { dst: LocV, a: OperandV, b: OperandV },
    AddBy { dst: LocV, src: OperandV },
    BatchInvert { end: int },
    EcMulAcc { scalar: OperandV, negate: bool },
    EcAddAcc { x: OperandV, y: OperandV },
    EcMulTmp { scalar: OperandV, negate: bool },
    EcAddTmp { x: OperandV, y: OperandV },
}

/// One symbolic field or curve operation over the scalar field modulus `r`.
/// Arithmetic variants are implicitly modular; the `Ec` variants and
/// `BatchInvert` are the fallible primitives, through which the generated
/// program threads its success flag by logical AND. `EcMulAcc`/`EcAddAcc`
/// work on the global accumulator point, `EcMulTmp`/`EcAddTmp` on the
/// temporary point; a `negate` flag asks for the scalar's negation mod `r`.
#[derive(Clone, Debug, PartialEq, Eq)]
pub enum Instr {
    /// `dst := src`
    Store { dst: Loc, src: Operand },
    /// `dst := a - b`
    StoreDiff { dst: Loc, a: Operand, b: Operand },
    /// `dst := dst * src`
    MulBy { dst: Loc, src: Operand },
    /// `dst := dst * (a - b)`
    MulByDiff { dst: Loc, a: Operand, b: Operand },
    /// `dst := dst + a * b`
    AddMul { dst: Loc, a: Operand, b: Operand },
    /// `dst := dst + src`
    AddBy { dst: Loc, src: Operand },
    /// One batch inversion over the scratch words in `[0, end)`.
    BatchInvert { end: usize },
    EcMulAcc { scalar: Operand, negate: bool },
    EcAddAcc { x: Operand, y: Operand },
    EcMulTmp { scalar: Operand, negate: bool },
    EcAddTmp { x: Operand, y: Operand },
}

impl View for Instr {
    type V = InstrV;

    open spec fn view(&self) -> InstrV {
        match self {
            Instr::Store { dst, src } => InstrV::Store { dst: dst@, src: src@ },
            Instr::StoreDiff { dst, a, b } => InstrV::StoreDiff { dst: dst@, a: a@, b: b@ },
            Instr::MulBy { dst, src } => InstrV::MulBy { dst: dst@, src: src@ },
            Instr::MulByDiff { dst, a, b } => InstrV::MulByDiff { dst: dst@, a: a@, b: b@ },
            Instr::AddMul { dst, a, b } => InstrV::AddMul { dst: dst@, a: a@, b: b@ },
            Instr::AddBy { dst, src } => InstrV::AddBy { dst: dst@, src: src@ },
            Instr::BatchInvert { end } => InstrV::BatchInvert { end: *end as int },
            Instr::EcMulAcc { scalar, negate } => InstrV::EcMulAcc {
                scalar: scalar@,
                negate: *negate,
            },
            Instr::EcAddAcc { x, y } => InstrV::EcAddAcc { x: x@, y: y@ },
            Instr::EcMulTmp { scalar, negate } => InstrV::EcMulTmp {
                scalar: scalar@,
                negate: *negate,
            },
            Instr::EcAddTmp { x, y } => InstrV::EcAddTmp { x: x@, y: y@ },
        }
    }
}

impl DeepView for Instr {
    type V = InstrV;

    open spec fn deep_view(&self) -> InstrV {
        self@
    }
}

/// Scratch address of the power-of-x slot of rotation `r`.
pub open spec fn pt_addr(l: LayoutV, s: Seq<i32>, r: i32) -> int {
    l.free + 0x20 * insert_pos(s, r)
}

/// Scratch address of the mu-minus-point slot of rotation `r`.
pub open spec fn mmp_addr(l: LayoutV, s: Seq<i32>, r: i32) -> int {
    l.mu_minus_point + 0x20 * insert_pos(s, r)
}

/// Per-set rotation counts, the sizes the layout is planned from.
pub open spec fn set_sizes_of(sets: Seq<RotationSetV>) -> Seq<int> {
    sets.map_values(|s: RotationSetV| s.rotations.len() as int)
}

/// Shape of one rotation set as the emitter needs it: ordered rotations drawn
/// from the superset, diffs the exact complement, and one evaluation row per
/// commitment with one expression per rotation.
pub open spec fn set_shape(superset: Seq<i32>, s: RotationSetV) -> bool {
    &&& sorted_unique(s.rotations)
    &&& forall|r: i32| s.rotations.contains(r) ==> superset.contains(r)
    &&& s.diffs == diffs_of(superset, s.rotations)
    &&& s.evals.len() == s.comms.len()
    &&& forall|p: int|
        0 <= p < s.evals.len() ==> (#[trigger] s.evals[p]).len() == s.rotations.len()
}

/// Everything the emitter assumes of its inputs: a sorted superset anchored at
/// rotation zero, well-shaped sets, sizes small enough for the address
/// arithmetic, and a layout that is exactly the planner's output for these
/// structural sizes.
pub open spec fn emit_inputs_wf(superset: Seq<i32>, sets: Seq<RotationSetV>, l: LayoutV) -> bool {
    &&& sorted_unique(superset)
    &&& superset.len() <= 0x10000
    &&& sets.len() <= 0x10000
    &&& seq_sum(set_sizes_of(sets)) <= 0x10000
    &&& forall|i: int| 0 <= i < sets.len() ==> set_shape(superset, #[trigger] sets[i])
    &&& superset.len() > 0 ==> superset.contains(0i32)
    &&& 0 <= l.w_cptr <= 0x1000_0000
    &&& l == spec_layout(superset.len() as int, set_sizes_of(sets), l.w_cptr)
}

/// Ascending power-table step for rotation `rot`: store the running power if
/// `rot` is in the superset, then advance it by the generator unless `rot` is
/// the maximum rotation.
pub open spec fn asc_step(s: Seq<i32>, l: LayoutV, rot: i32, max: i32) -> Seq<InstrV> {
    (if s.contains(rot) {
        seq![InstrV::Store { dst: LocV::Mem(pt_addr(l, s, rot)), src: OperandV::Acc }]
    } else {
        Seq::empty()
    }) + (if rot != max {
        seq![InstrV::MulBy { dst: LocV::Acc, src: OperandV::Reg(ExtReg::Omega) }]
    } else {
        Seq::empty()
    })
}

/// Ascending power-table steps for rotations 1 through `hi`.
pub open spec fn asc_upto(s: Seq<i32>, l: LayoutV, max: i32, hi: int) -> Seq<InstrV>
    decreases hi,
{
    if hi < 1 {
        Seq::empty()
    } else {
        asc_upto(s, l, max, hi - 1) + asc_step(s, l, hi as i32, max)
    }
}

/// Descending power-table step for rotation `rot`, advancing by the inverse
/// generator unless `rot` is the minimum rotation.
pub open spec fn desc_step(s: Seq<i32>, l: LayoutV, rot: i32, min: i32) -> Seq<InstrV> {
    (if s.contains(rot) {
        seq![InstrV::Store { dst: LocV::Mem(pt_addr(l, s, rot)), src: OperandV::Acc }]
    } else {
        Seq::empty()
    }) + (if rot != min {
        seq![InstrV::MulBy { dst: LocV::Acc, src: OperandV::Reg(ExtReg::OmegaInv) }]
    } else {
        Seq::empty()
    })
}

/// Descending power-table steps for rotations -1 down through `lo`.
pub open spec fn desc_downto(s: Seq<i32>, l: LayoutV, min: i32, lo: int) -> Seq<InstrV>
    decreases -lo,
{
    if lo > -1 {
        Seq::empty()
    } else {
        desc_downto(s, l, min, lo + 1) + desc_step(s, l, lo as i32, min)
    }
}

/// Stage (a): powers of the evaluation point for every superset rotation,
/// anchored at rotation zero, walking forward by the domain generator and
/// backward by its inverse.
pub open spec fn power_table_group(s: Seq<i32>, l: LayoutV) -> Seq<InstrV> {
    seq![
        InstrV::Store { dst: LocV::Acc, src: OperandV::Reg(ExtReg::X) },
        InstrV::MulBy { dst: LocV::Acc, src: OperandV::Reg(ExtReg::Omega) },
    ] + asc_upto(s, l, s.last(), s.last() as int) + seq![
        InstrV::Store { dst: LocV::Mem(pt_addr(l, s, 0)), src: OperandV::Reg(ExtReg::X) },
        InstrV::Store { dst: LocV::Acc, src: OperandV::Reg(ExtReg::X) },
        InstrV::MulBy { dst: LocV::Acc, src: OperandV::Reg(ExtReg::OmegaInv) },
    ] + desc_downto(s, l, s.first(), s.first() as int)
}

/// Stage (b): one mu-minus-point word per superset rotation, in superset
/// order.
pub open spec fn mmp_upto(l: LayoutV, k: int) -> Seq<InstrV>
    decreases k,
{
    if k <= 0 {
        Seq::empty()
    } else {
        mmp_upto(l, k - 1) + seq![
            InstrV::StoreDiff {
                dst: LocV::Mem(l.mu_minus_point + 0x20 * (k - 1)),
                a: OperandV::Reg(ExtReg::Mu),
                b: OperandV::Mem(l.free + 0x20 * (k - 1)),
            },
        ]
    }
}

/// Product chain over the first `k` rotations of `rots`: seed the accumulator
/// with the first mu-minus-point value, then multiply the rest in.
pub open spec fn prod_chain(s: Seq<i32>, l: LayoutV, rots: Seq<i32>, k: int) -> Seq<InstrV>
    decreases k,
{
    if k <= 0 {
        Seq::empty()
    } else if k == 1 {
        seq![InstrV::Store { dst: LocV::Acc, src: OperandV::Mem(mmp_addr(l, s, rots[0])) }]
    } else {
        prod_chain(s, l, rots, k - 1) + seq![
            InstrV::MulBy { dst: LocV::Acc, src: OperandV::Mem(mmp_addr(l, s, rots[k - 1])) },
        ]
    }
}

/// Stage (d) for one set: the product over its diff rotations, stored to the
/// set's diff slot, and mirrored to the diff-zero batch-inversion seed for
/// the first set.
pub open spec fn diff_set_instrs(s: Seq<i32>, l: LayoutV, set: RotationSetV, idx: int) -> Seq<
    InstrV,
> {
    prod_chain(s, l, set.diffs, set.diffs.len() as int) + seq![
        InstrV::Store { dst: LocV::Mem(l.diff + 0x20 * idx), src: OperandV::Acc },
    ] + (if idx == 0 {
        seq![InstrV::Store { dst: LocV::Mem(l.diff_0), src: OperandV::Acc }]
    } else {
        Seq::empty()
    })
}

pub open spec fn diffs_upto(s: Seq<i32>, l: LayoutV, sets: Seq<RotationSetV>, k: int) -> Seq<
    InstrV,
>
    decreases k,
{
    if k <= 0 {
        Seq::empty()
    } else {
        diffs_upto(s, l, sets, k - 1) + diff_set_instrs(s, l, sets[k - 1], k - 1)
    }
}

/// Stages (b)-(d): the mu-minus-point table, the vanishing factor over the
/// first set's rotations, and every set's diff product.
pub open spec fn mu_van_diff_group(s: Seq<i32>, sets: Seq<RotationSetV>, l: LayoutV) -> Seq<
    InstrV,
> {
    mmp_upto(l, s.len() as int) + prod_chain(
        s,
        l,
        sets[0].rotations,
        sets[0].rotations.len() as int,
    ) + seq![InstrV::Store { dst: LocV::Mem(l.vanishing), src: OperandV::Acc }] + diffs_upto(
        s,
        l,
        sets,
        sets.len() as int,
    )
}

/// Index of the first barycentric pair partner for rotation index `i`.
pub open spec fn first_partner(i: int) -> int {
    if i == 0 {
        1
    } else {
        0
    }
}

/// Barycentric pair products for rotation index `i` against partners with
/// index below `j`: the first partner seeds the accumulator with a point
/// difference, later partners multiply theirs in.
pub open spec fn pairs_upto(s: Seq<i32>, l: LayoutV, rots: Seq<i32>, i: int, j: int) -> Seq<InstrV>
    decreases j,
{
    if j <= 0 {
        Seq::empty()
    } else {
        pairs_upto(s, l, rots, i, j - 1) + (if j - 1 == i {
            Seq::empty()
        } else if j - 1 == first_partner(i) {
            seq![
                InstrV::StoreDiff {
                    dst: LocV::Acc,
                    a: OperandV::Mem(pt_addr(l, s, rots[i])),
                    b: OperandV::Mem(pt_addr(l, s, rots[j - 1])),
                },
            ]
        } else {
            seq![
                InstrV::MulByDiff {
                    dst: LocV::Acc,
                    a: OperandV::Mem(pt_addr(l, s, rots[i])),
                    b: OperandV::Mem(pt_addr(l, s, rots[j - 1])),
                },
            ]
        })
    }
}

/// Stage (f) for one rotation index: its barycentric coefficient, scaled by
/// its mu-minus-point value and stored into the set's coefficient array.
pub open spec fn coeff_item(s: Seq<i32>, l: LayoutV, base: int, rots: Seq<i32>, i: int) -> Seq<
    InstrV,
> {
    (if rots.len() == 1 {
        seq![InstrV::Store { dst: LocV::Acc, src: OperandV::Lit(1) }]
    } else {
        pairs_upto(s, l, rots, i, rots.len() as int)
    }) + seq![
        InstrV::MulBy { dst: LocV::Acc, src: OperandV::Mem(mmp_addr(l, s, rots[i])) },
        InstrV::Store { dst: LocV::Mem(base + 0x20 * i), src: OperandV::Acc },
    ]
}

pub open spec fn coeff_items_upto(
    s: Seq<i32>,
    l: LayoutV,
    base: int,
    rots: Seq<i32>,
    i: int,
) -> Seq<InstrV>
    decreases i,
{
    if i <= 0 {
        Seq::empty()
    } else {
        coeff_items_upto(s, l, base, rots, i - 1) + coeff_item(s, l, base, rots, i - 1)
    }
}

/// Stage (f) for one set: barycentric coefficients for each of its rotations.
pub open spec fn coeff_group(s: Seq<i32>, l: LayoutV, set: RotationSetV, idx: int) -> Seq<InstrV> {
    coeff_items_upto(s, l, l.coeff[idx], set.rotations, set.rotations.len() as int)
}

/// Rescaling of the diff slots after the first batch inversion.
pub open spec fn inv1_scale_upto(l: LayoutV, k: int) -> Seq<InstrV>
    decreases k,
{
    if k <= 1 {
        Seq::empty()
    } else {
        inv1_scale_upto(l, k - 1) + seq![
            InstrV::MulBy { dst: LocV::Mem(l.diff + 0x20 * (k - 1)), src: OperandV::Mem(l.diff_0) },
        ]
    }
}

/// Stage (e): the first batch inversion over the diff-zero word and the
/// coefficient arrays, the inverted seed copied to the first diff slot, and
/// every later diff slot rescaled by it.
pub open spec fn inv1_group(l: LayoutV, n: int) -> Seq<InstrV> {
    seq![
        InstrV::BatchInvert { end: l.batch_inv_1_end },
        InstrV::Store { dst: LocV::Mem(l.diff), src: OperandV::Mem(l.diff_0) },
    ] + inv1_scale_upto(l, n)
}

/// Weighted sum of one commitment's evaluations against the set's coefficient
/// array, for the first `k` rotations.
pub open spec fn eval_muls(l: LayoutV, base: int, row: Seq<Seq<char>>, k: int) -> Seq<InstrV>
    decreases k,
{
    if k <= 0 {
        Seq::empty()
    } else {
        eval_muls(l, base, row, k - 1) + seq![
            InstrV::AddMul {
                dst: LocV::Acc,
                a: OperandV::Mem(base + 0x20 * (k - 1)),
                b: OperandV::Expr(row[k - 1]),
            },
        ]
    }
}

/// Horner fold over the last `c` commitments of a set, in reverse order,
/// scaling by zeta between commitments.
pub open spec fn comm_fold(l: LayoutV, base: int, evs: Seq<Seq<Seq<char>>>, c: int) -> Seq<InstrV>
    decreases c,
{
    if c <= 0 {
        Seq::empty()
    } else {
        let eidx = evs.len() - c;
        comm_fold(l, base, evs, c - 1) + eval_muls(l, base, evs[eidx], evs[eidx].len() as int) + (
        if eidx != 0 {
            seq![InstrV::MulBy { dst: LocV::Acc, src: OperandV::Reg(ExtReg::Zeta) }]
        } else {
            Seq::empty()
        })
    }
}

/// Stage (h) for one set: the weighted evaluation accumulator, scaled by the
/// set's inverted diff product for every set but the first.
pub open spec fn r_eval_group(l: LayoutV, set: RotationSetV, idx: int) -> Seq<InstrV> {
    seq![InstrV::Store { dst: LocV::Acc, src: OperandV::Lit(0) }] + comm_fold(
        l,
        l.coeff[idx],
        set.evals,
        set.evals.len() as int,
    ) + (if idx != 0 {
        seq![InstrV::MulBy { dst: LocV::Acc, src: OperandV::Mem(l.diff + 0x20 * idx) }]
    } else {
        Seq::empty()
    }) + seq![InstrV::Store { dst: LocV::Mem(l.r_eval + 0x20 * idx), src: OperandV::Acc }]
}

pub open spec fn sum_adds(l: LayoutV, base: int, k: int) -> Seq<InstrV>
    decreases k,
{
    if k <= 1 {
        Seq::empty()
    } else {
        sum_adds(l, base, k - 1) + seq![
            InstrV::AddBy { dst: LocV::Acc, src: OperandV::Mem(base + 0x20 * (k - 1)) },
        ]
    }
}

/// Coefficient-sum accumulator for one set.
pub open spec fn sum_group(l: LayoutV, set: RotationSetV, idx: int) -> Seq<InstrV> {
    seq![InstrV::Store { dst: LocV::Acc, src: OperandV::Mem(l.coeff[idx]) }] + sum_adds(
        l,
        l.coeff[idx],
        set.rotations.len() as int,
    ) + seq![InstrV::Store { dst: LocV::Mem(l.sum + 0x20 * idx), src: OperandV::Acc }]
}

/// Copies of the per-set coefficient sums into the second batch-inversion
/// block.
pub open spec fn copies_upto(l: LayoutV, k: int) -> Seq<InstrV>
    decreases k,
{
    if k <= 0 {
        Seq::empty()
    } else {
        copies_upto(l, k - 1) + seq![
            InstrV::Store {
                dst: LocV::Mem(0x20 * (k - 1)),
                src: OperandV::Mem(l.sum + 0x20 * (k - 1)),
            },
        ]
    }
}

/// Aggregate folds for set indices `n - 2` down through `k`: scale the
/// running total by nu, then add the product of the inverted coefficient sum
/// and the weighted evaluation of that set.
pub open spec fn agg_folds(l: LayoutV, n: int, k: int) -> Seq<InstrV>
    decreases n - k,
{
    if k > n - 2 {
        Seq::empty()
    } else {
        agg_folds(l, n, k + 1) + seq![
            InstrV::MulBy { dst: LocV::Acc, src: OperandV::Reg(ExtReg::Nu) },
            InstrV::AddMul {
                dst: LocV::Acc,
                a: OperandV::Mem(0x20 * k),
                b: OperandV::Mem(l.r_eval + 0x20 * k),
            },
        ]
    }
}

/// Stages (g) and (i): the second batch inversion over the coefficient sums,
/// then the aggregate weighted evaluation folded from the second-to-last set
/// down to the first, written to the output register.
pub open spec fn agg_group(l: LayoutV, n: int) -> Seq<InstrV> {
    copies_upto(l, n) + seq![
        InstrV::BatchInvert { end: l.batch_inv_2_end },
        InstrV::Store { dst: LocV::Acc, src: OperandV::Mem(l.batch_inv_2_end - 0x20) },
        InstrV::MulBy { dst: LocV::Acc, src: OperandV::Mem(l.r_eval + 0x20 * (n - 1)) },
    ] + agg_folds(l, n, 0) + seq![
        InstrV::Store { dst: LocV::Reg(ExtReg::REval), src: OperandV::Acc },
    ]
}

/// Multi-scalar fold over the non-last commitments of one set, in reverse
/// order, into the global accumulator for the last set and the temporary
/// accumulator for the others.
pub open spec fn msm_comms(set: RotationSetV, last: bool, c: int) -> Seq<InstrV>
    decreases c,
{
    if c <= 0 {
        Seq::empty()
    } else {
        let ci = set.comms.len() - 1 - c;
        msm_comms(set, last, c - 1) + (if last {
            seq![
                InstrV::EcMulAcc { scalar: OperandV::Reg(ExtReg::Zeta), negate: false },
                InstrV::EcAddAcc {
                    x: OperandV::Expr(set.comms[ci].x),
                    y: OperandV::Expr(set.comms[ci].y),
                },
            ]
        } else {
            seq![
                InstrV::EcMulTmp { scalar: OperandV::Reg(ExtReg::Zeta), negate: false },
                InstrV::EcAddTmp {
                    x: OperandV::Expr(set.comms[ci].x),
                    y: OperandV::Expr(set.comms[ci].y),
                },
            ]
        })
    }
}

/// Stage (j) for one set.
pub open spec fn msm_set_instrs(l: LayoutV, set: RotationSetV, set_idx: int, last_idx: int) -> Seq<
    InstrV,
> {
    (if set.comms.len() > 0 {
        let last_comm = set.comms.last();
        if set_idx == last_idx {
            seq![
                InstrV::Store { dst: LocV::Mem(0x00), src: OperandV::Expr(last_comm.x) },
                InstrV::Store { dst: LocV::Mem(0x20), src: OperandV::Expr(last_comm.y) },
            ]
        } else {
            seq![
                InstrV::Store { dst: LocV::Mem(0x80), src: OperandV::Expr(last_comm.x) },
                InstrV::Store { dst: LocV::Mem(0xa0), src: OperandV::Expr(last_comm.y) },
            ]
        }
    } else {
        Seq::empty()
    }) + msm_comms(set, set_idx == last_idx, set.comms.len() - 1) + (if set_idx != 0 {
        if set_idx == last_idx {
            seq![
                InstrV::EcMulAcc { scalar: OperandV::Mem(l.diff + 0x20 * set_idx), negate: false },
            ]
        } else {
            seq![
                InstrV::EcMulTmp { scalar: OperandV::Mem(l.diff + 0x20 * set_idx), negate: false },
            ]
        }
    } else {
        Seq::empty()
    }) + (if set_idx != last_idx {
        seq![
            InstrV::EcMulAcc { scalar: OperandV::Reg(ExtReg::Nu), negate: false },
            InstrV::EcAddAcc { x: OperandV::Mem(0x80), y: OperandV::Mem(0xa0) },
        ]
    } else {
        Seq::empty()
    })
}

/// Stage (j) over the last `c` sets, from the last set downward.
pub open spec fn msm_downto(l: LayoutV, sets: Seq<RotationSetV>, c: int) -> Seq<InstrV>
    decreases c,
{
    if c <= 0 {
        Seq::empty()
    } else {
        let n = sets.len() as int;
        msm_downto(l, sets, c - 1) + msm_set_instrs(l, sets[n - c], n - c, n - 1)
    }
}

/// Stage (k): the pairing operands — the generator scaled by the negated
/// aggregate evaluation, the opening witness scaled by the negated vanishing
/// factor, and the degree-check witness scaled by mu, written to the output
/// registers.
pub open spec fn pairing_tail(l: LayoutV) -> Seq<InstrV> {
    seq![
        InstrV::Store { dst: LocV::Mem(0x80), src: OperandV::Reg(ExtReg::G1X) },
        InstrV::Store { dst: LocV::Mem(0xa0), src: OperandV::Reg(ExtReg::G1Y) },
        InstrV::EcMulTmp { scalar: OperandV::Reg(ExtReg::REval), negate: true },
        InstrV::EcAddAcc { x: OperandV::Mem(0x80), y: OperandV::Mem(0xa0) },
        InstrV::Store { dst: LocV::Mem(0x80), src: OperandV::Calldata(l.w_cptr) },
        InstrV::Store { dst: LocV::Mem(0xa0), src: OperandV::Calldata(l.w_cptr + 0x20) },
        InstrV::EcMulTmp { scalar: OperandV::Mem(l.vanishing), negate: true },
        InstrV::EcAddAcc { x: OperandV::Mem(0x80), y: OperandV::Mem(0xa0) },
        InstrV::Store { dst: LocV::Mem(0x80), src: OperandV::Calldata(l.w_prime_cptr) },
        InstrV::Store { dst: LocV::Mem(0xa0), src: OperandV::Calldata(l.w_prime_cptr + 0x20) },
        InstrV::EcMulTmp { scalar: OperandV::Reg(ExtReg::Mu), negate: false },
        InstrV::EcAddAcc { x: OperandV::Mem(0x80), y: OperandV::Mem(0xa0) },
        InstrV::Store { dst: LocV::Reg(ExtReg::PairingLhsX), src: OperandV::Mem(0x00) },
        InstrV::Store { dst: LocV::Reg(ExtReg::PairingLhsY), src: OperandV::Mem(0x20) },
        InstrV::Store { dst: LocV::Reg(ExtReg::PairingRhsX), src: OperandV::Calldata(l.w_prime_cptr) },
        InstrV::Store { dst: LocV::Reg(ExtReg::PairingRhsY), src: OperandV::Calldata(l.w_prime_cptr + 0x20) },
    ]
}

/// Stages (j) and (k) as one group.
pub open spec fn msm_group(l: LayoutV, sets: Seq<RotationSetV>) -> Seq<InstrV> {
    msm_downto(l, sets, sets.len() as int) + pairing_tail(l)
}

pub open spec fn coeff_groups_upto(
    s: Seq<i32>,
    l: LayoutV,
    sets: Seq<RotationSetV>,
    k: int,
) -> Seq<Seq<InstrV>>
    decreases k,
{
    if k <= 0 {
        Seq::empty()
    } else {
        coeff_groups_upto(s, l, sets, k - 1).push(coeff_group(s, l, sets[k - 1], k - 1))
    }
}

pub open spec fn r_eval_groups_upto(l: LayoutV, sets: Seq<RotationSetV>, k: int) -> Seq<
    Seq<InstrV>,
>
    decreases k,
{
    if k <= 0 {
        Seq::empty()
    } else {
        r_eval_groups_upto(l, sets, k - 1).push(r_eval_group(l, sets[k - 1], k - 1))
    }
}

pub open spec fn sum_groups_upto(l: LayoutV, sets: Seq<RotationSetV>, k: int) -> Seq<Seq<InstrV>>
    decreases k,
{
    if k <= 0 {
        Seq::empty()
    } else {
        sum_groups_upto(l, sets, k - 1).push(sum_group(l, sets[k - 1], k - 1))
    }
}

/// The whole instruction program, as ordered instruction groups: power table;
/// mu-minus-point table with vanishing factor and diff products; one
/// coefficient group per set; the first batch inversion; one weighted
/// evaluation group per set; one coefficient-sum group per set; the second
/// batch inversion with the aggregate evaluation; and the multi-scalar
/// accumulation with the pairing operands.
pub open spec fn spec_program(s: Seq<i32>, sets: Seq<RotationSetV>, l: LayoutV) -> Seq<
    Seq<InstrV>,
> {
    let n = sets.len() as int;
    seq![power_table_group(s, l), mu_van_diff_group(s, sets, l)] + coeff_groups_upto(s, l, sets, n)
        + seq![inv1_group(l, n)] + r_eval_groups_upto(l, sets, n) + sum_groups_upto(l, sets, n)
        + seq![agg_group(l, n), msm_group(l, sets)]
}
/// Stage (a) emitter: walks rotations upward from 1 and downward from -1,
/// storing the running power at every superset rotation.
fn emit_power_table(superset: &Vec<i32>, sets: &Vec<RotationSet>, layout: &Layout) -> (g:
    Vec<Instr>)
    requires
        emit_inputs_wf(superset@, sets.deep_view(), layout@),
        superset@.len() > 0,
    ensures
        g.deep_view() == power_table_group(superset@, layout@),
{
    let ghost s = superset@;
    let ghost l = layout@;
    proof {
        crate::layout::lemma_layout_bounds(s.len() as int, set_sizes_of(sets.deep_view()), l.w_cptr);
    }
    let max: i32 = superset[superset.len() - 1];
    let min: i32 = superset[0];
    proof {
        assert(max == s.last());
        assert(min == s.first());
    }
    let mut g: Vec<Instr> = Vec::new();
    g.push(Instr::Store { dst: Loc::Acc, src: Operand::Reg(ExtReg::X) });
    g.push(Instr::MulBy { dst: Loc::Acc, src: Operand::Reg(ExtReg::Omega) });
    let ghost lead = g.deep_view();
    proof {
        assert(lead =~= seq![
            InstrV::Store { dst: LocV::Acc, src: OperandV::Reg(ExtReg::X) },
            InstrV::MulBy { dst: LocV::Acc, src: OperandV::Reg(ExtReg::Omega) },
        ]);
    }
    let mut k: usize = find_insert_pos(superset, 1);
    proof {
        lemma_insert_pos_bounds(s, 1);
    }
    let mut rot: i64 = 1;
    while rot <= max as i64
        invariant
            emit_inputs_wf(s, sets.deep_view(), l),
            s == superset@,
            l == layout@,
            s.len() > 0,
            max == s.last(),
            1 <= rot <= max as i64 + 1,
            k <= s.len(),
            forall|i: int| 0 <= i < k ==> (s[i] as int) < rot as int,
            k < s.len() ==> (s[k as int] as int) >= rot as int,
            g.deep_view() == lead + asc_upto(s, l, max, rot - 1),
        decreases max as int + 1 - rot as int,
    {
        proof {
            crate::layout::lemma_layout_bounds(
                s.len() as int,
                set_sizes_of(sets.deep_view()),
                l.w_cptr,
            );
        }
        let ghost g0 = g.deep_view();
        let ghost stored: Seq<InstrV> = if s.contains(rot as i32) {
            seq![InstrV::Store { dst: LocV::Mem(pt_addr(l, s, rot as i32)), src: OperandV::Acc }]
        } else {
            Seq::empty()
        };
        if k < superset.len() && (superset[k] as i64) == rot {
            let addr: usize = layout.free + 0x20 * k;
            proof {
                lemma_insert_pos_unique(s, rot as i32, k as int);
                assert(s[k as int] == rot as i32);
                assert(s.contains(rot as i32));
                assert(addr as int == pt_addr(l, s, rot as i32));
            }
            g.push(Instr::Store { dst: Loc::Mem(addr), src: Operand::Acc });
            proof {
                assert(g.deep_view() =~= g0 + stored);
            }
            k += 1;
        } else {
            proof {
                lemma_insert_pos_unique(s, rot as i32, k as int);
                lemma_sorted_contains_at_pos(s, rot as i32);
                assert(!s.contains(rot as i32));
                assert(g.deep_view() =~= g0 + stored);
            }
        }
        let ghost g1 = g.deep_view();
        if rot != max as i64 {
            g.push(Instr::MulBy { dst: Loc::Acc, src: Operand::Reg(ExtReg::Omega) });
            proof {
                assert(rot as i32 != max);
                assert(g.deep_view() =~= g1 + seq![
                    InstrV::MulBy { dst: LocV::Acc, src: OperandV::Reg(ExtReg::Omega) },
                ]);
            }
        } else {
            proof {
                assert(rot as i32 == max);
            }
        }
        proof {
            assert((rot as int) as i32 == rot as i32);
            assert(asc_upto(s, l, max, rot as int) == asc_upto(s, l, max, rot - 1) + asc_step(
                s,
                l,
                (rot as int) as i32,
                max,
            ));
            assert(g.deep_view() =~= lead + asc_upto(s, l, max, rot as int));
        }
        rot += 1;
    }
    proof {
        assert(g.deep_view() == lead + asc_upto(s, l, max, max as int));
    }
    let anchor: usize = layout.free + 0x20 * find_insert_pos(superset, 0);
    g.push(Instr::Store { dst: Loc::Mem(anchor), src: Operand::Reg(ExtReg::X) });
    g.push(Instr::Store { dst: Loc::Acc, src: Operand::Reg(ExtReg::X) });
    g.push(Instr::MulBy { dst: Loc::Acc, src: Operand::Reg(ExtReg::OmegaInv) });
    let ghost lead2 = g.deep_view();
    proof {
        assert(anchor as int == pt_addr(l, s, 0));
        assert(lead2 =~= lead + asc_upto(s, l, max, max as int) + seq![
            InstrV::Store { dst: LocV::Mem(pt_addr(l, s, 0)), src: OperandV::Reg(ExtReg::X) },
            InstrV::Store { dst: LocV::Acc, src: OperandV::Reg(ExtReg::X) },
            InstrV::MulBy { dst: LocV::Acc, src: OperandV::Reg(ExtReg::OmegaInv) },
        ]);
    }
    let mut j: i64 = find_insert_pos(superset, 0) as i64 - 1;
    proof {
        lemma_insert_pos_bounds(s, 0);
    }
    let mut rot: i64 = -1;
    while rot >= min as i64
        invariant
            emit_inputs_wf(s, sets.deep_view(), l),
            s == superset@,
            l == layout@,
            s.len() > 0,
            min == s.first(),
            min as i64 - 1 <= rot <= -1,
            -1 <= j < s.len() as i64,
            forall|i: int| j < i < s.len() ==> (s[i] as int) > rot as int,
            j >= 0 ==> (s[j as int] as int) <= rot as int,
            g.deep_view() == lead2 + desc_downto(s, l, min, rot + 1),
        decreases rot - min as int + 1,
    {
        proof {
            crate::layout::lemma_layout_bounds(
                s.len() as int,
                set_sizes_of(sets.deep_view()),
                l.w_cptr,
            );
        }
        let ghost g0 = g.deep_view();
        let ghost stored: Seq<InstrV> = if s.contains(rot as i32) {
            seq![InstrV::Store { dst: LocV::Mem(pt_addr(l, s, rot as i32)), src: OperandV::Acc }]
        } else {
            Seq::empty()
        };
        if j >= 0 && (superset[j as usize] as i64) == rot {
            let addr: usize = layout.free + 0x20 * (j as usize);
            proof {
                lemma_insert_pos_unique(s, rot as i32, j as int);
                assert(s[j as int] == rot as i32);
                assert(s.contains(rot as i32));
                assert(addr as int == pt_addr(l, s, rot as i32));
            }
            g.push(Instr::Store { dst: Loc::Mem(addr), src: Operand::Acc });
            proof {
                assert(g.deep_view() =~= g0 + stored);
            }
            j -= 1;
        } else {
            proof {
                if s.contains(rot as i32) {
                    let w = choose|w: int| 0 <= w < s.len() && s[w] == rot as i32;
                    if w <= j {
                        assert((s[w] as int) <= (s[j as int] as int));
                    }
                    assert(false);
                }
                assert(g.deep_view() =~= g0 + stored);
            }
        }
        let ghost g1 = g.deep_view();
        if rot != min as i64 {
            g.push(Instr::MulBy { dst: Loc::Acc, src: Operand::Reg(ExtReg::OmegaInv) });
            proof {
                assert(rot as i32 != min);
                assert(g.deep_view() =~= g1 + seq![
                    InstrV::MulBy { dst: LocV::Acc, src: OperandV::Reg(ExtReg::OmegaInv) },
                ]);
            }
        } else {
            proof {
                assert(rot as i32 == min);
            }
        }
        proof {
            assert((rot as int) as i32 == rot as i32);
            assert(desc_downto(s, l, min, rot as int) == desc_downto(s, l, min, rot + 1)
                + desc_step(s, l, (rot as int) as i32, min));
            assert(g.deep_view() =~= lead2 + desc_downto(s, l, min, rot as int));
        }
        rot -= 1;
    }
    proof {
        assert(g.deep_view() == lead2 + desc_downto(s, l, min, min as int));
        assert(g.deep_view() =~= power_table_group(s, l));
    }
    g
}
/// Appends the product chain over `rots`: seed the accumulator from the first
/// mu-minus-point slot, then multiply the remaining slots in.
fn push_prod_chain(g: &mut Vec<Instr>, superset: &Vec<i32>, layout: &Layout, rots: &Vec<i32>)
    requires
        sorted_unique(superset@),
        superset@.len() <= 0x10000,
        0 <= layout@.mu_minus_point <= 0x60_0100,
    ensures
        final(g).deep_view() == old(g).deep_view() + prod_chain(
            superset@,
            layout@,
            rots@,
            rots@.len() as int,
        ),
{
    let ghost s = superset@;
    let ghost l = layout@;
    let ghost base = g.deep_view();
    let mut i: usize = 0;
    while i < rots.len()
        invariant
            s == superset@,
            l == layout@,
            sorted_unique(s),
            s.len() <= 0x10000,
            0 <= l.mu_minus_point <= 0x60_0100,
            i <= rots@.len(),
            g.deep_view() == base + prod_chain(s, l, rots@, i as int),
        decreases rots@.len() - i,
    {
        let p = find_insert_pos(superset, rots[i]);
        let addr: usize = layout.mu_minus_point + 0x20 * p;
        let ghost g0 = g.deep_view();
        proof {
            assert(addr as int == mmp_addr(l, s, rots@[i as int]));
        }
        if i == 0 {
            g.push(Instr::Store { dst: Loc::Acc, src: Operand::Mem(addr) });
            proof {
                assert(g.deep_view() =~= g0 + seq![
                    InstrV::Store {
                        dst: LocV::Acc,
                        src: OperandV::Mem(mmp_addr(l, s, rots@[0])),
                    },
                ]);
                assert(prod_chain(s, l, rots@, 1) =~= seq![
                    InstrV::Store {
                        dst: LocV::Acc,
                        src: OperandV::Mem(mmp_addr(l, s, rots@[0])),
                    },
                ]);
                assert(prod_chain(s, l, rots@, 0) =~= Seq::<InstrV>::empty());
                assert(g.deep_view() =~= base + prod_chain(s, l, rots@, i + 1));
            }
        } else {
            g.push(Instr::MulBy { dst: Loc::Acc, src: Operand::Mem(addr) });
            proof {
                assert(g.deep_view() =~= g0 + seq![
                    InstrV::MulBy {
                        dst: LocV::Acc,
                        src: OperandV::Mem(mmp_addr(l, s, rots@[i as int])),
                    },
                ]);
                assert(g.deep_view() =~= base + prod_chain(s, l, rots@, i + 1));
            }
        }
        i += 1;
    }
}

/// Stages (b)-(d) emitter: mu-minus-point table, vanishing factor over the
/// first set, and the per-set diff products with the diff-zero mirror.
fn emit_mu_van_diff(superset: &Vec<i32>, sets: &Vec<RotationSet>, layout: &Layout) -> (g:
    Vec<Instr>)
    requires
        emit_inputs_wf(superset@, sets.deep_view(), layout@),
        sets.deep_view().len() > 0,
    ensures
        g.deep_view() == mu_van_diff_group(superset@, sets.deep_view(), layout@),
{
    let ghost s = superset@;
    let ghost sv = sets.deep_view();
    let ghost l = layout@;
    proof {
        crate::layout::lemma_layout_bounds(s.len() as int, set_sizes_of(sv), l.w_cptr);
    }
    let mut g: Vec<Instr> = Vec::new();
    let mut k: usize = 0;
    while k < superset.len()
        invariant
            emit_inputs_wf(s, sv, l),
            s == superset@,
            sv == sets.deep_view(),
            l == layout@,
            k <= s.len(),
            g.deep_view() == mmp_upto(l, k as int),
        decreases s.len() - k,
    {
        proof {
            crate::layout::lemma_layout_bounds(s.len() as int, set_sizes_of(sv), l.w_cptr);
        }
        g.push(
            Instr::StoreDiff {
                dst: Loc::Mem(layout.mu_minus_point + 0x20 * k),
                a: Operand::Reg(ExtReg::Mu),
                b: Operand::Mem(layout.free + 0x20 * k),
            },
        );
        proof {
            assert(g.deep_view() =~= mmp_upto(l, k + 1));
        }
        k += 1;
    }
    proof {
        crate::layout::lemma_layout_bounds(s.len() as int, set_sizes_of(sv), l.w_cptr);
        assert(sets.deep_view()[0] == sets@[0]@);
    }
    push_prod_chain(&mut g, superset, layout, sets[0].rotations());
    let ghost g1 = g.deep_view();
    g.push(Instr::Store { dst: Loc::Mem(layout.vanishing), src: Operand::Acc });
    proof {
        assert(g.deep_view() =~= g1 + seq![
            InstrV::Store { dst: LocV::Mem(l.vanishing), src: OperandV::Acc },
        ]);
    }
    let ghost base2 = g.deep_view();
    let mut idx: usize = 0;
    while idx < sets.len()
        invariant
            emit_inputs_wf(s, sv, l),
            s == superset@,
            sv == sets.deep_view(),
            l == layout@,
            idx <= sv.len(),
            g.deep_view() == base2 + diffs_upto(s, l, sv, idx as int),
        decreases sv.len() - idx,
    {
        proof {
            crate::layout::lemma_layout_bounds(s.len() as int, set_sizes_of(sv), l.w_cptr);
            assert(sets.deep_view()[idx as int] == sets@[idx as int]@);
        }
        push_prod_chain(&mut g, superset, layout, sets[idx].diffs());
        let ghost g2 = g.deep_view();
        g.push(Instr::Store { dst: Loc::Mem(layout.diff + 0x20 * idx), src: Operand::Acc });
        proof {
            assert(g.deep_view() =~= g2 + seq![
                InstrV::Store { dst: LocV::Mem(l.diff + 0x20 * (idx as int)), src: OperandV::Acc },
            ]);
        }
        if idx == 0 {
            let ghost g3 = g.deep_view();
            g.push(Instr::Store { dst: Loc::Mem(layout.diff_0), src: Operand::Acc });
            proof {
                assert(g.deep_view() =~= g3 + seq![
                    InstrV::Store { dst: LocV::Mem(l.diff_0), src: OperandV::Acc },
                ]);
            }
        }
        proof {
            assert(g.deep_view() =~= base2 + diffs_upto(s, l, sv, idx + 1));
        }
        idx += 1;
    }
    proof {
        assert(g.deep_view() =~= mu_van_diff_group(s, sv, l));
    }
    g
}

/// Stage (f) emitter for one set: the barycentric coefficient of each of its
/// rotations, stored into the set's coefficient array.
fn emit_coeff_group(superset: &Vec<i32>, sets: &Vec<RotationSet>, layout: &Layout, idx: usize) -> (g:
    Vec<Instr>)
    requires
        emit_inputs_wf(superset@, sets.deep_view(), layout@),
        idx < sets.deep_view().len(),
    ensures
        g.deep_view() == coeff_group(superset@, layout@, sets.deep_view()[idx as int], idx as int),
{
    let ghost s = superset@;
    let ghost sv = sets.deep_view();
    let ghost l = layout@;
    let ghost setv = sv[idx as int];
    proof {
        crate::layout::lemma_layout_bounds(s.len() as int, set_sizes_of(sv), l.w_cptr);
        assert(sets.deep_view()[idx as int] == sets@[idx as int]@);
        assert(set_sizes_of(sv)[idx as int] == setv.rotations.len() as int);
    }
    let set = &sets[idx];
    let rots = set.rotations();
    let base_addr: usize = layout.coeff[idx];
    proof {
        assert(l.coeff[idx as int] == base_addr as int);
    }
    let mut g: Vec<Instr> = Vec::new();
    let mut i: usize = 0;
    while i < rots.len()
        invariant
            emit_inputs_wf(s, sv, l),
            s == superset@,
            sv == sets.deep_view(),
            l == layout@,
            idx < sv.len(),
            setv == sv[idx as int],
            rots@ == setv.rotations,
            base_addr as int == l.coeff[idx as int],
            base_addr + 0x20 * rots@.len() <= 0x20_0020,
            i <= rots@.len(),
            g.deep_view() == coeff_items_upto(s, l, base_addr as int, setv.rotations, i as int),
        decreases rots@.len() - i,
    {
        proof {
            crate::layout::lemma_layout_bounds(s.len() as int, set_sizes_of(sv), l.w_cptr);
        }
        let ghost item_base = g.deep_view();
        if rots.len() == 1 {
            let ghost g0 = g.deep_view();
            g.push(Instr::Store { dst: Loc::Acc, src: Operand::Lit(1) });
            proof {
                assert(g.deep_view() =~= g0 + seq![
                    InstrV::Store { dst: LocV::Acc, src: OperandV::Lit(1) },
                ]);
            }
        } else {
            let fp: usize = if i == 0 {
                1
            } else {
                0
            };
            let pi = find_insert_pos(superset, rots[i]);
            let addr_i: usize = layout.free + 0x20 * pi;
            proof {
                assert(addr_i as int == pt_addr(l, s, setv.rotations[i as int]));
            }
            let mut j: usize = 0;
            while j < rots.len()
                invariant
                    emit_inputs_wf(s, sv, l),
                    s == superset@,
                    sv == sets.deep_view(),
                    l == layout@,
                    idx < sv.len(),
                    setv == sv[idx as int],
                    rots@ == setv.rotations,
                    rots@.len() > 1,
                    i < rots@.len(),
                    fp as int == first_partner(i as int),
                    addr_i as int == pt_addr(l, s, setv.rotations[i as int]),
                    j <= rots@.len(),
                    g.deep_view() == item_base + pairs_upto(
                        s,
                        l,
                        setv.rotations,
                        i as int,
                        j as int,
                    ),
                decreases rots@.len() - j,
            {
                proof {
                    crate::layout::lemma_layout_bounds(s.len() as int, set_sizes_of(sv), l.w_cptr);
                }
                let ghost g0 = g.deep_view();
                if j != i {
                    let pj = find_insert_pos(superset, rots[j]);
                    let addr_j: usize = layout.free + 0x20 * pj;
                    proof {
                        assert(addr_j as int == pt_addr(l, s, setv.rotations[j as int]));
                    }
                    if j == fp {
                        g.push(
                            Instr::StoreDiff {
                                dst: Loc::Acc,
                                a: Operand::Mem(addr_i),
                                b: Operand::Mem(addr_j),
                            },
                        );
                        proof {
                            assert(g.deep_view() =~= g0 + seq![
                                InstrV::StoreDiff {
                                    dst: LocV::Acc,
                                    a: OperandV::Mem(pt_addr(l, s, setv.rotations[i as int])),
                                    b: OperandV::Mem(pt_addr(l, s, setv.rotations[j as int])),
                                },
                            ]);
                        }
                    } else {
                        g.push(
                            Instr::MulByDiff {
                                dst: Loc::Acc,
                                a: Operand::Mem(addr_i),
                                b: Operand::Mem(addr_j),
                            },
                        );
                        proof {
                            assert(g.deep_view() =~= g0 + seq![
                                InstrV::MulByDiff {
                                    dst: LocV::Acc,
                                    a: OperandV::Mem(pt_addr(l, s, setv.rotations[i as int])),
                                    b: OperandV::Mem(pt_addr(l, s, setv.rotations[j as int])),
                                },
                            ]);
                        }
                    }
                }
                proof {
                    assert(g.deep_view() =~= item_base + pairs_upto(
                        s,
                        l,
                        setv.rotations,
                        i as int,
                        j + 1,
                    ));
                }
                j += 1;
            }
        }
        let pi2 = find_insert_pos(superset, rots[i]);
        let mp: usize = layout.mu_minus_point + 0x20 * pi2;
        let ghost g4 = g.deep_view();
        g.push(Instr::MulBy { dst: Loc::Acc, src: Operand::Mem(mp) });
        g.push(Instr::Store { dst: Loc::Mem(base_addr + 0x20 * i), src: Operand::Acc });
        proof {
            assert(mp as int == mmp_addr(l, s, setv.rotations[i as int]));
            assert(g.deep_view() =~= g4 + seq![
                InstrV::MulBy {
                    dst: LocV::Acc,
                    src: OperandV::Mem(mmp_addr(l, s, setv.rotations[i as int])),
                },
                InstrV::Store {
                    dst: LocV::Mem(l.coeff[idx as int] + 0x20 * (i as int)),
                    src: OperandV::Acc,
                },
            ]);
            assert(g.deep_view() =~= coeff_items_upto(
                s,
                l,
                base_addr as int,
                setv.rotations,
                i + 1,
            ));
        }
        i += 1;
    }
    proof {
        assert(g.deep_view() == coeff_group(s, l, setv, idx as int));
    }
    g
}

/// Stage (e) emitter: the first batch inversion and the diff-slot rescaling.
fn emit_inv1(layout: &Layout, n: usize) -> (g: Vec<Instr>)
    requires
        0 <= layout@.diff <= 0x80_0120,
        n <= 0x10000,
    ensures
        g.deep_view() == inv1_group(layout@, n as int),
{
    let ghost l = layout@;
    let mut g: Vec<Instr> = Vec::new();
    g.push(Instr::BatchInvert { end: layout.batch_inv_1_end });
    g.push(Instr::Store { dst: Loc::Mem(layout.diff), src: Operand::Mem(layout.diff_0) });
    let ghost base = g.deep_view();
    proof {
        assert(base =~= seq![
            InstrV::BatchInvert { end: l.batch_inv_1_end },
            InstrV::Store { dst: LocV::Mem(l.diff), src: OperandV::Mem(l.diff_0) },
        ]);
    }
    let mut k: usize = 1;
    while k < n
        invariant
            l == layout@,
            0 <= l.diff <= 0x80_0120,
            n <= 0x10000,
            1 <= k <= n || (n == 0 && k == 1),
            g.deep_view() == base + inv1_scale_upto(l, k as int),
        decreases n - k,
    {
        let ghost g0 = g.deep_view();
        g.push(
            Instr::MulBy { dst: Loc::Mem(layout.diff + 0x20 * k), src: Operand::Mem(layout.diff_0) },
        );
        proof {
            assert(g.deep_view() =~= g0 + seq![
                InstrV::MulBy {
                    dst: LocV::Mem(l.diff + 0x20 * (k as int)),
                    src: OperandV::Mem(l.diff_0),
                },
            ]);
            assert(g.deep_view() =~= base + inv1_scale_upto(l, k + 1));
        }
        k += 1;
    }
    proof {
        if n <= 1 {
            assert(inv1_scale_upto(l, n as int) =~= Seq::<InstrV>::empty());
        }
        assert(g.deep_view() =~= inv1_group(l, n as int));
    }
    g
}

/// Stage (h) emitter for one set: its weighted evaluation accumulator.
fn emit_r_eval_group(sets: &Vec<RotationSet>, layout: &Layout, idx: usize) -> (g: Vec<Instr>)
    requires
        idx < sets.deep_view().len(),
        sets.deep_view().len() <= 0x10000,
        set_shape_sizes_ok(sets.deep_view(), layout@),
        0 <= layout@.r_eval <= 0xa0_0120,
        0 <= layout@.diff <= 0x80_0120,
    ensures
        g.deep_view() == r_eval_group(layout@, sets.deep_view()[idx as int], idx as int),
{
    let ghost sv = sets.deep_view();
    let ghost l = layout@;
    let ghost setv = sv[idx as int];
    proof {
        assert(sets.deep_view()[idx as int] == sets@[idx as int]@);
    }
    let set = &sets[idx];
    let evals = set.evals();
    let base_addr: usize = layout.coeff[idx];
    proof {
        assert(l.coeff[idx as int] == base_addr as int);
        assert(evals.deep_view() == setv.evals);
    }
    let mut g: Vec<Instr> = Vec::new();
    g.push(Instr::Store { dst: Loc::Acc, src: Operand::Lit(0) });
    let ghost lead = g.deep_view();
    proof {
        assert(lead =~= seq![InstrV::Store { dst: LocV::Acc, src: OperandV::Lit(0) }]);
    }
    let mut eidx: usize = evals.len();
    while eidx > 0
        invariant
            sv == sets.deep_view(),
            l == layout@,
            idx < sv.len(),
            setv == sv[idx as int],
            set_shape_sizes_ok(sv, l),
            evals.deep_view() == setv.evals,
            base_addr as int == l.coeff[idx as int],
            eidx <= evals@.len(),
            g.deep_view() == lead + comm_fold(
                l,
                base_addr as int,
                setv.evals,
                evals@.len() - eidx,
            ),
        decreases eidx,
    {
        eidx -= 1;
        let row = &evals[eidx];
        let ghost fold_base = g.deep_view();
        proof {
            assert(row.deep_view() == setv.evals[eidx as int]);
            assert(row.deep_view().len() <= 0x10000);
        }
        let mut kk: usize = 0;
        while kk < row.len()
            invariant
                sv == sets.deep_view(),
                l == layout@,
                idx < sv.len(),
                setv == sv[idx as int],
                set_shape_sizes_ok(sv, l),
                eidx < setv.evals.len(),
                row.deep_view() == setv.evals[eidx as int],
                row.deep_view().len() <= 0x10000,
                base_addr as int == l.coeff[idx as int],
                base_addr <= 0x20_0020,
                kk <= row@.len(),
                g.deep_view() == fold_base + eval_muls(
                    l,
                    base_addr as int,
                    setv.evals[eidx as int],
                    kk as int,
                ),
            decreases row@.len() - kk,
        {
            let ghost g0 = g.deep_view();
            g.push(
                Instr::AddMul {
                    dst: Loc::Acc,
                    a: Operand::Mem(base_addr + 0x20 * kk),
                    b: Operand::Expr(row[kk].clone()),
                },
            );
            proof {
                assert(row@[kk as int]@ == setv.evals[eidx as int][kk as int]);
                assert(g.deep_view() =~= g0 + seq![
                    InstrV::AddMul {
                        dst: LocV::Acc,
                        a: OperandV::Mem(l.coeff[idx as int] + 0x20 * (kk as int)),
                        b: OperandV::Expr(setv.evals[eidx as int][kk as int]),
                    },
                ]);
                assert(g.deep_view() =~= fold_base + eval_muls(
                    l,
                    base_addr as int,
                    setv.evals[eidx as int],
                    kk + 1,
                ));
            }
            kk += 1;
        }
        if eidx != 0 {
            let ghost g1 = g.deep_view();
            g.push(Instr::MulBy { dst: Loc::Acc, src: Operand::Reg(ExtReg::Zeta) });
            proof {
                assert(g.deep_view() =~= g1 + seq![
                    InstrV::MulBy { dst: LocV::Acc, src: OperandV::Reg(ExtReg::Zeta) },
                ]);
            }
        }
        proof {
            assert(g.deep_view() =~= lead + comm_fold(
                l,
                base_addr as int,
                setv.evals,
                evals@.len() - eidx,
            ));
        }
    }
    if idx != 0 {
        let ghost g2 = g.deep_view();
        g.push(Instr::MulBy { dst: Loc::Acc, src: Operand::Mem(layout.diff + 0x20 * idx) });
        proof {
            assert(g.deep_view() =~= g2 + seq![
                InstrV::MulBy {
                    dst: LocV::Acc,
                    src: OperandV::Mem(l.diff + 0x20 * (idx as int)),
                },
            ]);
        }
    }
    let ghost g3 = g.deep_view();
    g.push(Instr::Store { dst: Loc::Mem(layout.r_eval + 0x20 * idx), src: Operand::Acc });
    proof {
        assert(g.deep_view() =~= g3 + seq![
            InstrV::Store {
                dst: LocV::Mem(l.r_eval + 0x20 * (idx as int)),
                src: OperandV::Acc,
            },
        ]);
        assert(g.deep_view() =~= r_eval_group(l, setv, idx as int));
    }
    g
}

/// The evaluation-row and coefficient-array sizes the weighted-evaluation and
/// coefficient-sum emitters need: every row fits its set's coefficient array,
/// which itself lies within the first batch-inversion region.
pub open spec fn set_shape_sizes_ok(sets: Seq<RotationSetV>, l: LayoutV) -> bool {
    &&& l.coeff.len() == sets.len()
    &&& forall|i: int|
        0 <= i < sets.len() ==> 0x20 <= #[trigger] l.coeff[i] && l.coeff[i] + 0x20 * (
        #[trigger] sets[i]).rotations.len() <= 0x20_0020
    &&& forall|i: int, p: int|
        0 <= i < sets.len() && 0 <= p < (#[trigger] sets[i]).evals.len() ==> (#[trigger]
        sets[i].evals[p]).len() == sets[i].rotations.len()
}

/// Coefficient-sum emitter for one set.
fn emit_sum_group(sets: &Vec<RotationSet>, layout: &Layout, idx: usize) -> (g: Vec<Instr>)
    requires
        idx < sets.deep_view().len(),
        set_shape_sizes_ok(sets.deep_view(), layout@),
        0 <= layout@.sum <= 0xc0_0120,
        sets.deep_view().len() <= 0x10000,
    ensures
        g.deep_view() == sum_group(layout@, sets.deep_view()[idx as int], idx as int),
{
    let ghost sv = sets.deep_view();
    let ghost l = layout@;
    let ghost setv = sv[idx as int];
    proof {
        assert(sets.deep_view()[idx as int] == sets@[idx as int]@);
    }
    let set = &sets[idx];
    let size = set.rotations().len();
    let base_addr: usize = layout.coeff[idx];
    proof {
        assert(l.coeff[idx as int] == base_addr as int);
        assert(size as int == setv.rotations.len() as int);
    }
    let mut g: Vec<Instr> = Vec::new();
    g.push(Instr::Store { dst: Loc::Acc, src: Operand::Mem(base_addr) });
    let ghost lead = g.deep_view();
    proof {
        assert(lead =~= seq![
            InstrV::Store { dst: LocV::Acc, src: OperandV::Mem(l.coeff[idx as int]) },
        ]);
    }
    let mut k: usize = 1;
    while k < size
        invariant
            l == layout@,
            setv == sv[idx as int],
            idx < sv.len(),
            set_shape_sizes_ok(sv, l),
            sv == sets.deep_view(),
            base_addr as int == l.coeff[idx as int],
            size as int == setv.rotations.len() as int,
            size <= 0x10000,
            base_addr + 0x20 * size <= 0x20_0020,
            1 <= k <= size || (size == 0 && k == 1),
            g.deep_view() == lead + sum_adds(l, base_addr as int, k as int),
        decreases size - k,
    {
        let ghost g0 = g.deep_view();
        g.push(Instr::AddBy { dst: Loc::Acc, src: Operand::Mem(base_addr + 0x20 * k) });
        proof {
            assert(g.deep_view() =~= g0 + seq![
                InstrV::AddBy {
                    dst: LocV::Acc,
                    src: OperandV::Mem(l.coeff[idx as int] + 0x20 * (k as int)),
                },
            ]);
            assert(g.deep_view() =~= lead + sum_adds(l, base_addr as int, k + 1));
        }
        k += 1;
    }
    let ghost g1 = g.deep_view();
    g.push(Instr::Store { dst: Loc::Mem(layout.sum + 0x20 * idx), src: Operand::Acc });
    proof {
        if size <= 1 {
            assert(sum_adds(l, base_addr as int, setv.rotations.len() as int)
                =~= Seq::<InstrV>::empty());
        }
        assert(g.deep_view() =~= g1 + seq![
            InstrV::Store { dst: LocV::Mem(l.sum + 0x20 * (idx as int)), src: OperandV::Acc },
        ]);
        assert(g.deep_view() =~= sum_group(l, setv, idx as int));
    }
    g
}
/// Stages (g) and (i) emitter: the coefficient-sum copies, the second batch
/// inversion, and the aggregate weighted-evaluation fold.
fn emit_agg(layout: &Layout, n: usize) -> (g: Vec<Instr>)
    requires
        1 <= n <= 0x10000,
        layout@.batch_inv_2_end == n * 0x20,
        0 <= layout@.sum <= 0xc0_0120,
        0 <= layout@.r_eval <= 0xa0_0120,
    ensures
        g.deep_view() == agg_group(layout@, n as int),
{
    let ghost l = layout@;
    let mut g: Vec<Instr> = Vec::new();
    let mut k: usize = 0;
    while k < n
        invariant
            l == layout@,
            n <= 0x10000,
            0 <= l.sum <= 0xc0_0120,
            k <= n,
            g.deep_view() == copies_upto(l, k as int),
        decreases n - k,
    {
        let ghost g0 = g.deep_view();
        g.push(
            Instr::Store { dst: Loc::Mem(0x20 * k), src: Operand::Mem(layout.sum + 0x20 * k) },
        );
        proof {
            assert(g.deep_view() =~= g0 + seq![
                InstrV::Store {
                    dst: LocV::Mem(0x20 * (k as int)),
                    src: OperandV::Mem(l.sum + 0x20 * (k as int)),
                },
            ]);
            assert(g.deep_view() =~= copies_upto(l, k + 1));
        }
        k += 1;
    }
    let ghost g1 = g.deep_view();
    g.push(Instr::BatchInvert { end: layout.batch_inv_2_end });
    g.push(Instr::Store { dst: Loc::Acc, src: Operand::Mem(layout.batch_inv_2_end - 0x20) });
    g.push(
        Instr::MulBy { dst: Loc::Acc, src: Operand::Mem(layout.r_eval + 0x20 * (n - 1)) },
    );
    let ghost g2 = g.deep_view();
    proof {
        assert(g2 =~= g1 + seq![
            InstrV::BatchInvert { end: l.batch_inv_2_end },
            InstrV::Store { dst: LocV::Acc, src: OperandV::Mem(l.batch_inv_2_end - 0x20) },
            InstrV::MulBy { dst: LocV::Acc, src: OperandV::Mem(l.r_eval + 0x20 * (n - 1)) },
        ]);
    }
    let mut kk: usize = n - 1;
    while kk > 0
        invariant
            l == layout@,
            n <= 0x10000,
            0 <= l.r_eval <= 0xa0_0120,
            kk <= n - 1,
            g.deep_view() == g2 + agg_folds(l, n as int, kk as int),
        decreases kk,
    {
        kk -= 1;
        let ghost g3 = g.deep_view();
        g.push(Instr::MulBy { dst: Loc::Acc, src: Operand::Reg(ExtReg::Nu) });
        g.push(
            Instr::AddMul {
                dst: Loc::Acc,
                a: Operand::Mem(0x20 * kk),
                b: Operand::Mem(layout.r_eval + 0x20 * kk),
            },
        );
        proof {
            assert(g.deep_view() =~= g3 + seq![
                InstrV::MulBy { dst: LocV::Acc, src: OperandV::Reg(ExtReg::Nu) },
                InstrV::AddMul {
                    dst: LocV::Acc,
                    a: OperandV::Mem(0x20 * (kk as int)),
                    b: OperandV::Mem(l.r_eval + 0x20 * (kk as int)),
                },
            ]);
            assert(g.deep_view() =~= g2 + agg_folds(l, n as int, kk as int));
        }
    }
    let ghost g4 = g.deep_view();
    g.push(Instr::Store { dst: Loc::Reg(ExtReg::REval), src: Operand::Acc });
    proof {
        assert(g.deep_view() =~= g4 + seq![
            InstrV::Store { dst: LocV::Reg(ExtReg::REval), src: OperandV::Acc },
        ]);
        assert(g.deep_view() =~= agg_group(l, n as int));
    }
    g
}

/// Stages (j) and (k) emitter: the multi-scalar accumulation over all sets,
/// last set first, and the pairing operands.
fn emit_msm(sets: &Vec<RotationSet>, layout: &Layout) -> (g: Vec<Instr>)
    requires
        sets.deep_view().len() >= 1,
        sets.deep_view().len() <= 0x10000,
        0 <= layout@.diff <= 0x80_0120,
        0 <= layout@.vanishing <= 0x80_0100,
        0 <= layout@.w_cptr <= 0x1000_0000,
        layout@.w_prime_cptr == layout@.w_cptr + 0x40,
    ensures
        g.deep_view() == msm_group(layout@, sets.deep_view()),
{
    let ghost sv = sets.deep_view();
    let ghost l = layout@;
    let n = sets.len();
    let mut g: Vec<Instr> = Vec::new();
    let mut c: usize = 0;
    while c < n
        invariant
            sv == sets.deep_view(),
            l == layout@,
            n == sv.len(),
            1 <= n <= 0x10000,
            0 <= l.diff <= 0x80_0120,
            c <= n,
            g.deep_view() == msm_downto(l, sv, c as int),
        decreases n - c,
    {
        c += 1;
        let si = n - c;
        let ghost setv = sv[si as int];
        proof {
            assert(sets.deep_view()[si as int] == sets@[si as int]@);
        }
        let set = &sets[si];
        let comms = set.comms();
        let last_set = si == n - 1;
        let ghost set_base = g.deep_view();
        if comms.len() > 0 {
            let lastc = &comms[comms.len() - 1];
            let ghost g0 = g.deep_view();
            proof {
                assert(comms.deep_view()[comms@.len() - 1] == setv.comms.last());
            }
            if last_set {
                g.push(
                    Instr::Store {
                        dst: Loc::Mem(0x00),
                        src: Operand::Expr(ScalarExpr::new(lastc.x().clone())),
                    },
                );
                g.push(
                    Instr::Store {
                        dst: Loc::Mem(0x20),
                        src: Operand::Expr(ScalarExpr::new(lastc.y().clone())),
                    },
                );
                proof {
                    assert(g.deep_view() =~= g0 + seq![
                        InstrV::Store {
                            dst: LocV::Mem(0x00),
                            src: OperandV::Expr(setv.comms.last().x),
                        },
                        InstrV::Store {
                            dst: LocV::Mem(0x20),
                            src: OperandV::Expr(setv.comms.last().y),
                        },
                    ]);
                }
            } else {
                g.push(
                    Instr::Store {
                        dst: Loc::Mem(0x80),
                        src: Operand::Expr(ScalarExpr::new(lastc.x().clone())),
                    },
                );
                g.push(
                    Instr::Store {
                        dst: Loc::Mem(0xa0),
                        src: Operand::Expr(ScalarExpr::new(lastc.y().clone())),
                    },
                );
                proof {
                    assert(g.deep_view() =~= g0 + seq![
                        InstrV::Store {
                            dst: LocV::Mem(0x80),
                            src: OperandV::Expr(setv.comms.last().x),
                        },
                        InstrV::Store {
                            dst: LocV::Mem(0xa0),
                            src: OperandV::Expr(setv.comms.last().y),
                        },
                    ]);
                }
            }
        }
        let ghost fold_base = g.deep_view();
        let mut c2: usize = 0;
        while comms.len() > 0 && c2 < comms.len() - 1
            invariant
                sv == sets.deep_view(),
                l == layout@,
                setv == sv[si as int],
                si < sv.len(),
                comms.deep_view() == setv.comms,
                last_set == (si == sv.len() - 1),
                comms@.len() > 0 ==> c2 <= comms@.len() - 1,
                comms@.len() == 0 ==> c2 == 0,
                g.deep_view() == fold_base + msm_comms(setv, last_set, c2 as int),
            decreases comms@.len() - c2,
        {
            c2 += 1;
            let ci = comms.len() - 1 - c2;
            let cm = &comms[ci];
            let ghost g1 = g.deep_view();
            proof {
                assert(comms.deep_view()[ci as int] == setv.comms[ci as int]);
            }
            if last_set {
                g.push(Instr::EcMulAcc { scalar: Operand::Reg(ExtReg::Zeta), negate: false });
                g.push(
                    Instr::EcAddAcc {
                        x: Operand::Expr(ScalarExpr::new(cm.x().clone())),
                        y: Operand::Expr(ScalarExpr::new(cm.y().clone())),
                    },
                );
                proof {
                    assert(g.deep_view() =~= g1 + seq![
                        InstrV::EcMulAcc { scalar: OperandV::Reg(ExtReg::Zeta), negate: false },
                        InstrV::EcAddAcc {
                            x: OperandV::Expr(setv.comms[ci as int].x),
                            y: OperandV::Expr(setv.comms[ci as int].y),
                        },
                    ]);
                }
            } else {
                g.push(Instr::EcMulTmp { scalar: Operand::Reg(ExtReg::Zeta), negate: false });
                g.push(
                    Instr::EcAddTmp {
                        x: Operand::Expr(ScalarExpr::new(cm.x().clone())),
                        y: Operand::Expr(ScalarExpr::new(cm.y().clone())),
                    },
                );
                proof {
                    assert(g.deep_view() =~= g1 + seq![
                        InstrV::EcMulTmp { scalar: OperandV::Reg(ExtReg::Zeta), negate: false },
                        InstrV::EcAddTmp {
                            x: OperandV::Expr(setv.comms[ci as int].x),
                            y: OperandV::Expr(setv.comms[ci as int].y),
                        },
                    ]);
                }
            }
            proof {
                assert(g.deep_view() =~= fold_base + msm_comms(setv, last_set, c2 as int));
            }
        }
        proof {
            if comms@.len() == 0 {
                assert(msm_comms(setv, last_set, -1) =~= Seq::<InstrV>::empty());
            }
            assert(g.deep_view() == fold_base + msm_comms(
                setv,
                last_set,
                setv.comms.len() - 1,
            ));
        }
        if si != 0 {
            let ghost g2 = g.deep_view();
            if last_set {
                g.push(
                    Instr::EcMulAcc {
                        scalar: Operand::Mem(layout.diff + 0x20 * si),
                        negate: false,
                    },
                );
                proof {
                    assert(g.deep_view() =~= g2 + seq![
                        InstrV::EcMulAcc {
                            scalar: OperandV::Mem(l.diff + 0x20 * (si as int)),
                            negate: false,
                        },
                    ]);
                }
            } else {
                g.push(
                    Instr::EcMulTmp {
                        scalar: Operand::Mem(layout.diff + 0x20 * si),
                        negate: false,
                    },
                );
                proof {
                    assert(g.deep_view() =~= g2 + seq![
                        InstrV::EcMulTmp {
                            scalar: OperandV::Mem(l.diff + 0x20 * (si as int)),
                            negate: false,
                        },
                    ]);
                }
            }
        }
        if !last_set {
            let ghost g3 = g.deep_view();
            g.push(Instr::EcMulAcc { scalar: Operand::Reg(ExtReg::Nu), negate: false });
            g.push(Instr::EcAddAcc { x: Operand::Mem(0x80), y: Operand::Mem(0xa0) });
            proof {
                assert(g.deep_view() =~= g3 + seq![
                    InstrV::EcMulAcc { scalar: OperandV::Reg(ExtReg::Nu), negate: false },
                    InstrV::EcAddAcc { x: OperandV::Mem(0x80), y: OperandV::Mem(0xa0) },
                ]);
            }
        }
        proof {
            assert(g.deep_view() =~= set_base + msm_set_instrs(l, setv, si as int, sv.len() - 1));
            assert(g.deep_view() =~= msm_downto(l, sv, c as int));
        }
    }
    let ghost g5 = g.deep_view();
    g.push(Instr::Store { dst: Loc::Mem(0x80), src: Operand::Reg(ExtReg::G1X) });
    g.push(Instr::Store { dst: Loc::Mem(0xa0), src: Operand::Reg(ExtReg::G1Y) });
    g.push(Instr::EcMulTmp { scalar: Operand::Reg(ExtReg::REval), negate: true });
    g.push(Instr::EcAddAcc { x: Operand::Mem(0x80), y: Operand::Mem(0xa0) });
    g.push(Instr::Store { dst: Loc::Mem(0x80), src: Operand::Calldata(layout.w_cptr) });
    g.push(Instr::Store { dst: Loc::Mem(0xa0), src: Operand::Calldata(layout.w_cptr + 0x20) });
    g.push(Instr::EcMulTmp { scalar: Operand::Mem(layout.vanishing), negate: true });
    g.push(Instr::EcAddAcc { x: Operand::Mem(0x80), y: Operand::Mem(0xa0) });
    g.push(Instr::Store { dst: Loc::Mem(0x80), src: Operand::Calldata(layout.w_prime_cptr) });
    g.push(
        Instr::Store { dst: Loc::Mem(0xa0), src: Operand::Calldata(layout.w_prime_cptr + 0x20) },
    );
    g.push(Instr::EcMulTmp { scalar: Operand::Reg(ExtReg::Mu), negate: false });
    g.push(Instr::EcAddAcc { x: Operand::Mem(0x80), y: Operand::Mem(0xa0) });
    g.push(Instr::Store { dst: Loc::Reg(ExtReg::PairingLhsX), src: Operand::Mem(0x00) });
    g.push(Instr::Store { dst: Loc::Reg(ExtReg::PairingLhsY), src: Operand::Mem(0x20) });
    g.push(
        Instr::Store { dst: Loc::Reg(ExtReg::PairingRhsX), src: Operand::Calldata(layout.w_prime_cptr) },
    );
    g.push(
        Instr::Store {
            dst: Loc::Reg(ExtReg::PairingRhsY),
            src: Operand::Calldata(layout.w_prime_cptr + 0x20),
        },
    );
    proof {
        assert(g.deep_view() =~= g5 + pairing_tail(l));
        assert(g.deep_view() =~= msm_group(l, sv));
    }
    g
}

/// A rotation set with no rotations, or no sets at all.
pub open spec fn some_rotations_empty(sets: Seq<RotationSetV>) -> bool {
    exists|i: int| 0 <= i < sets.len() && (#[trigger] sets[i]).rotations.len() == 0
}

/// A rotation set whose diff collection is empty: it covers the whole
/// superset, leaving nothing to seed the shared batch inversion with.
pub open spec fn some_diffs_empty(sets: Seq<RotationSetV>) -> bool {
    exists|i: int| 0 <= i < sets.len() && (#[trigger] sets[i]).diffs.len() == 0
}

/// Emits the whole instruction program for the given partition and layout.
/// The structural faults spec forbids — an empty superset, an empty rotation
/// set, a set with no diff rotations — abort generation with no partial
/// output; on every other input the full program of `spec_program` is
/// returned.
pub fn emit(superset: &Vec<i32>, sets: &Vec<RotationSet>, layout: &Layout) -> (r: Result<
    Vec<Vec<Instr>>,
    PcsError,
>)
    requires
        emit_inputs_wf(superset@, sets.deep_view(), layout@),
    ensures
        match r {
            Ok(groups) => {
                &&& superset@.len() > 0
                &&& sets.deep_view().len() > 0
                &&& !some_rotations_empty(sets.deep_view())
                &&& !some_diffs_empty(sets.deep_view())
                &&& groups.deep_view() == spec_program(superset@, sets.deep_view(), layout@)
            },
            Err(PcsError::EmptySuperset) => superset@.len() == 0,
            Err(PcsError::EmptyRotationSet) => superset@.len() > 0 && (sets.deep_view().len() == 0
                || some_rotations_empty(sets.deep_view())),
            Err(PcsError::EmptyDiffs) => superset@.len() > 0 && sets.deep_view().len() > 0
                && !some_rotations_empty(sets.deep_view()) && some_diffs_empty(sets.deep_view()),
            Err(_) => false,
        },
{
    let ghost s = superset@;
    let ghost sv = sets.deep_view();
    let ghost l = layout@;
    if superset.len() == 0 {
        return Err(PcsError::EmptySuperset);
    }
    if sets.len() == 0 {
        return Err(PcsError::EmptyRotationSet);
    }
    let mut i: usize = 0;
    while i < sets.len()
        invariant
            s == superset@,
            s.len() > 0,
            sv == sets.deep_view(),
            sv.len() > 0,
            i <= sv.len(),
            forall|k: int| 0 <= k < i ==> (#[trigger] sv[k]).rotations.len() > 0,
        decreases sv.len() - i,
    {
        proof {
            assert(sets.deep_view()[i as int] == sets@[i as int]@);
        }
        if sets[i].rotations().len() == 0 {
            proof {
                assert(some_rotations_empty(sv));
            }
            return Err(PcsError::EmptyRotationSet);
        }
        i += 1;
    }
    let mut i: usize = 0;
    while i < sets.len()
        invariant
            s == superset@,
            s.len() > 0,
            sv == sets.deep_view(),
            sv.len() > 0,
            i <= sv.len(),
            forall|k: int| 0 <= k < sv.len() ==> (#[trigger] sv[k]).rotations.len() > 0,
            forall|k: int| 0 <= k < i ==> (#[trigger] sv[k]).diffs.len() > 0,
        decreases sv.len() - i,
    {
        proof {
            assert(sets.deep_view()[i as int] == sets@[i as int]@);
        }
        if sets[i].diffs().len() == 0 {
            proof {
                assert(some_diffs_empty(sv));
            }
            return Err(PcsError::EmptyDiffs);
        }
        i += 1;
    }
    proof {
        crate::layout::lemma_layout_bounds(s.len() as int, set_sizes_of(sv), l.w_cptr);
        assert(set_shape_sizes_ok(sv, l)) by {
            assert forall|k: int| 0 <= k < sv.len() implies 0x20 <= #[trigger] l.coeff[k]
                && l.coeff[k] + 0x20 * sv[k].rotations.len() <= 0x20_0020 by {
                assert(set_sizes_of(sv)[k] == sv[k].rotations.len() as int);
            }
        }
    }
    let n = sets.len();
    let mut groups: Vec<Vec<Instr>> = Vec::new();
    groups.push(emit_power_table(superset, sets, layout));
    groups.push(emit_mu_van_diff(superset, sets, layout));
    let ghost lead = groups.deep_view();
    proof {
        assert(lead =~= seq![power_table_group(s, l), mu_van_diff_group(s, sv, l)]);
    }
    let mut idx: usize = 0;
    while idx < n
        invariant
            emit_inputs_wf(s, sv, l),
            s == superset@,
            sv == sets.deep_view(),
            l == layout@,
            n == sv.len(),
            idx <= n,
            groups.deep_view() == lead + coeff_groups_upto(s, l, sv, idx as int),
        decreases n - idx,
    {
        let ghost gr0 = groups.deep_view();
        groups.push(emit_coeff_group(superset, sets, layout, idx));
        proof {
            assert(groups.deep_view() =~= gr0.push(coeff_group(s, l, sv[idx as int], idx as int)));
            assert(groups.deep_view() =~= lead + coeff_groups_upto(s, l, sv, idx + 1));
        }
        idx += 1;
    }
    let ghost lead2 = groups.deep_view();
    {
        let ghost gr1 = groups.deep_view();
        proof {
            crate::layout::lemma_layout_bounds(s.len() as int, set_sizes_of(sv), l.w_cptr);
        }
        groups.push(emit_inv1(layout, n));
        proof {
            assert(groups.deep_view() =~= gr1.push(inv1_group(l, n as int)));
        }
    }
    let ghost lead3 = groups.deep_view();
    let mut idx: usize = 0;
    while idx < n
        invariant
            emit_inputs_wf(s, sv, l),
            s == superset@,
            sv == sets.deep_view(),
            l == layout@,
            set_shape_sizes_ok(sv, l),
            n == sv.len(),
            n <= 0x10000,
            idx <= n,
            groups.deep_view() == lead3 + r_eval_groups_upto(l, sv, idx as int),
        decreases n - idx,
    {
        let ghost gr2 = groups.deep_view();
        proof {
            crate::layout::lemma_layout_bounds(s.len() as int, set_sizes_of(sv), l.w_cptr);
        }
        groups.push(emit_r_eval_group(sets, layout, idx));
        proof {
            assert(groups.deep_view() =~= gr2.push(r_eval_group(l, sv[idx as int], idx as int)));
            assert(groups.deep_view() =~= lead3 + r_eval_groups_upto(l, sv, idx + 1));
        }
        idx += 1;
    }
    let ghost lead4 = groups.deep_view();
    let mut idx: usize = 0;
    while idx < n
        invariant
            emit_inputs_wf(s, sv, l),
            s == superset@,
            sv == sets.deep_view(),
            l == layout@,
            set_shape_sizes_ok(sv, l),
            n == sv.len(),
            n <= 0x10000,
            idx <= n,
            groups.deep_view() == lead4 + sum_groups_upto(l, sv, idx as int),
        decreases n - idx,
    {
        let ghost gr3 = groups.deep_view();
        proof {
            crate::layout::lemma_layout_bounds(s.len() as int, set_sizes_of(sv), l.w_cptr);
        }
        groups.push(emit_sum_group(sets, layout, idx));
        proof {
            assert(groups.deep_view() =~= gr3.push(sum_group(l, sv[idx as int], idx as int)));
            assert(groups.deep_view() =~= lead4 + sum_groups_upto(l, sv, idx + 1));
        }
        idx += 1;
    }
    let ghost gr4 = groups.deep_view();
    proof {
        crate::layout::lemma_layout_bounds(s.len() as int, set_sizes_of(sv), l.w_cptr);
    }
    groups.push(emit_agg(layout, n));
    groups.push(emit_msm(sets, layout));
    proof {
        assert(groups.deep_view() =~= gr4.push(agg_group(l, n as int)).push(msm_group(l, sv)));
        assert(groups.deep_view() =~= spec_program(s, sv, l));
    }
    Ok(groups)
}

/// With `n` rotation sets the aggregate combination step folds set indices
/// `n - 2` down to 0 inclusive: exactly `n - 1` fold operations, each a
/// nu-scaling and one multiply-add.
pub proof fn lemma_agg_fold_count(l: LayoutV, n: int, k: int)
    requires
        0 <= k <= n - 1,
    ensures
        agg_folds(l, n, k).len() == 2 * (n - 1 - k),
    decreases n - k,
{
    if k <= n - 2 {
        lemma_agg_fold_count(l, n, k + 1);
    }
}

/// Feeding the emitter one (sets, layout) pair twice yields identical
/// instruction output: the program is a function of the partition and the
/// layout alone.
pub proof fn lemma_emitter_deterministic(
    s1: Seq<i32>,
    sets1: Seq<RotationSetV>,
    l1: LayoutV,
    s2: Seq<i32>,
    sets2: Seq<RotationSetV>,
    l2: LayoutV,
)
    requires
        s1 == s2,
        sets1 == sets2,
        l1 == l2,
    ensures
        spec_program(s1, sets1, l1) == spec_program(s2, sets2, l2),
{
}
} // verus!
