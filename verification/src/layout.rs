//! Static scratch-memory layout: a pure function from the structural sizes of
//! the partition (superset cardinality, per-set cardinalities, set count) and
//! the calldata base offset to non-overlapping word-aligned addresses for
//! every intermediate value the emitted program stores. Every address the
//! emitter references comes from here.

use vstd::prelude::*;

verus! {

/// Mathematical image of a layout, over unbounded integers.
pub ghost struct LayoutV {
    pub diff_0: int,
    pub coeff: Seq<int>,
    pub batch_inv_1_end: int,
    pub batch_inv_2_end: int,
    pub free: int,
    pub mu_minus_point: int,
    pub vanishing: int,
    pub diff: int,
    pub r_eval: int,
    pub sum: int,
    pub end: int,
    pub w_cptr: int,
    pub w_prime_cptr: int,
}

/// Scratch addresses (word-aligned byte offsets) for one generation run:
/// the shared batch-inversion seed word, the per-set coefficient arrays, the
/// two batch-inversion region ends, the free-pointer region holding the point
/// and mu-minus-point tables, the vanishing accumulator, the per-set diff
/// products, weighted sums and coefficient sums, the watermark past all of
/// them, and the calldata offsets of the two opening-witness points.
pub struct Layout {
    pub diff_0: usize,
    pub coeff: Vec<usize>,
    pub batch_inv_1_end: usize,
    pub batch_inv_2_end: usize,
    pub free: usize,
    pub mu_minus_point: usize,
    pub vanishing: usize,
    pub diff: usize,
    pub r_eval: usize,
    pub sum: usize,
    pub end: usize,
    pub w_cptr: usize,
    pub w_prime_cptr: usize,
}

impl View for Layout {
    type V = LayoutV;

    open spec fn view(&self) -> LayoutV {
        LayoutV {
            diff_0: self.diff_0 as int,
            coeff: self.coeff@.map_values(|x: usize| x as int),
            batch_inv_1_end: self.batch_inv_1_end as int,
            batch_inv_2_end: self.batch_inv_2_end as int,
            free: self.free as int,
            mu_minus_point: self.mu_minus_point as int,
            vanishing: self.vanishing as int,
            diff: self.diff as int,
            r_eval: self.r_eval as int,
            sum: self.sum as int,
            end: self.end as int,
            w_cptr: self.w_cptr as int,
            w_prime_cptr: self.w_prime_cptr as int,
        }
    }
}

pub open spec fn seq_sum(s: Seq<int>) -> int
    decreases s.len(),
{
    if s.len() == 0 {
        0
    } else {
        seq_sum(s.drop_last()) + s.last()
    }
}

/// Start address of each per-set coefficient array: the first begins one word
/// past the diff-zero slot, and each array spans one word per rotation.
pub open spec fn coeff_starts(sizes: Seq<int>) -> Seq<int> {
    Seq::new(sizes.len(), |i: int| 0x20 + 0x20 * seq_sum(sizes.subrange(0, i)))
}

/// The layout formulas, shared by the planner and by every proof about
/// addresses. `s_len` is the superset cardinality, `sizes` the per-set
/// rotation counts, `w` the calldata offset of the proof's witness block.
pub open spec fn spec_layout(s_len: int, sizes: Seq<int>, w: int) -> LayoutV {
    let n = sizes.len() as int;
    let b1_end = (1 + seq_sum(sizes)) * 0x20;
    let b2_end = n * 0x20;
    let free = b1_end * 2 + 6 * 0x20;
    let vanishing = free + s_len * 2 * 0x20;
    LayoutV {
        diff_0: 0,
        coeff: coeff_starts(sizes),
        batch_inv_1_end: b1_end,
        batch_inv_2_end: b2_end,
        free: free,
        mu_minus_point: free + s_len * 0x20,
        vanishing: vanishing,
        diff: vanishing + 0x20,
        r_eval: vanishing + 0x20 + n * 0x20,
        sum: vanishing + 0x20 + 2 * n * 0x20,
        end: vanishing + 0x20 + 3 * n * 0x20,
        w_cptr: w,
        w_prime_cptr: w + 0x40,
    }
}

pub open spec fn sizes_int(s: Seq<usize>) -> Seq<int> {
    s.map_values(|x: usize| x as int)
}

pub proof fn lemma_seq_sum_nonneg(s: Seq<int>)
    requires
        forall|i: int| 0 <= i < s.len() ==> s[i] >= 0,
    ensures
        seq_sum(s) >= 0,
    decreases s.len(),
{
    if s.len() > 0 {
        lemma_seq_sum_nonneg(s.drop_last());
    }
}

pub proof fn lemma_seq_sum_prefix(s: Seq<int>, n: int)
    requires
        forall|i: int| 0 <= i < s.len() ==> s[i] >= 0,
        0 <= n <= s.len(),
    ensures
        seq_sum(s.subrange(0, n)) <= seq_sum(s),
        seq_sum(s.subrange(0, n)) >= 0,
    decreases s.len() - n,
{
    lemma_seq_sum_nonneg(s.subrange(0, n));
    if n < s.len() {
        lemma_seq_sum_prefix(s, n + 1);
        assert(s.subrange(0, n + 1).drop_last() =~= s.subrange(0, n));
        assert(s.subrange(0, n + 1).last() == s[n]);
    } else {
        assert(s.subrange(0, n) =~= s);
    }
}

/// Computes the layout. The size bounds are what the address arithmetic needs
/// to stay within a machine word; the partitioner guarantees them for every
/// input whose query count is below the same bound.
pub fn plan_layout(superset_len: usize, set_sizes: &Vec<usize>, w_cptr: usize) -> (l: Layout)
    requires
        superset_len <= 0x10000,
        set_sizes@.len() <= 0x10000,
        seq_sum(sizes_int(set_sizes@)) <= 0x10000,
        forall|i: int| 0 <= i < set_sizes@.len() ==> set_sizes@[i] <= 0x10000,
        w_cptr <= 0x1000_0000,
    ensures
        l@ == spec_layout(superset_len as int, sizes_int(set_sizes@), w_cptr as int),
{
    let ghost sizes = sizes_int(set_sizes@);
    proof {
        lemma_seq_sum_nonneg(sizes);
    }
    let n = set_sizes.len();
    let mut coeff: Vec<usize> = Vec::new();
    let mut acc: usize = 0;
    let mut i: usize = 0;
    while i < n
        invariant
            n == set_sizes@.len(),
            n <= 0x10000,
            seq_sum(sizes) <= 0x10000,
            forall|k: int| 0 <= k < set_sizes@.len() ==> set_sizes@[k] <= 0x10000,
            sizes == sizes_int(set_sizes@),
            i <= n,
            acc as int == seq_sum(sizes.subrange(0, i as int)),
            0 <= acc as int <= seq_sum(sizes),
            coeff@.map_values(|x: usize| x as int) == coeff_starts(sizes).subrange(0, i as int),
        decreases n - i,
    {
        proof {
            lemma_seq_sum_prefix(sizes, i as int);
            lemma_seq_sum_prefix(sizes, i + 1);
            assert(sizes.subrange(0, i + 1).drop_last() =~= sizes.subrange(0, i as int));
        }
        let start: usize = 0x20 + 0x20 * acc;
        let ghost c0 = coeff@;
        coeff.push(start);
        proof {
            assert(start as int == coeff_starts(sizes)[i as int]);
            let m = coeff@.map_values(|x: usize| x as int);
            let m0 = c0.map_values(|x: usize| x as int);
            assert(coeff@ == c0.push(start));
            assert(m0.len() == c0.len());
            assert(m0.len() == i as int);
            assert forall|k: int| 0 <= k < m.len() implies m[k] == coeff_starts(sizes).subrange(
                0,
                i + 1,
            )[k] by {
                assert(coeff_starts(sizes).subrange(0, i + 1)[k] == coeff_starts(sizes)[k]);
                if k < i {
                    assert(c0.push(start)[k] == c0[k]);
                    assert(m[k] == c0[k] as int);
                    assert(m0[k] == coeff_starts(sizes).subrange(0, i as int)[k]);
                    assert(m0[k] == c0[k] as int);
                } else {
                    assert(c0.push(start)[k] == start);
                    assert(m[k] == start as int);
                }
            }
            assert(m =~= coeff_starts(sizes).subrange(0, i + 1));
        }
        acc = acc + set_sizes[i];
        i += 1;
    }
    proof {
        assert(coeff@.map_values(|x: usize| x as int) =~= coeff_starts(sizes));
        lemma_seq_sum_prefix(sizes, n as int);
        assert(sizes.subrange(0, n as int) =~= sizes);
    }
    let sum_total: usize = acc;
    let batch_inv_1_end: usize = (1 + sum_total) * 0x20;
    let batch_inv_2_end: usize = n * 0x20;
    let free: usize = batch_inv_1_end * 2 + 6 * 0x20;
    let vanishing: usize = free + superset_len * 2 * 0x20;
    let diff: usize = vanishing + 0x20;
    let r_eval: usize = diff + n * 0x20;
    let sum: usize = r_eval + n * 0x20;
    let end: usize = sum + n * 0x20;
    Layout {
        diff_0: 0,
        coeff,
        batch_inv_1_end,
        batch_inv_2_end,
        free,
        mu_minus_point: free + superset_len * 0x20,
        vanishing,
        diff,
        r_eval,
        sum,
        end,
        w_cptr,
        w_prime_cptr: w_cptr + 0x40,
    }
}

/// Bounds on every planned address under the planner's size preconditions;
/// what the emitter's address arithmetic needs to stay within a machine word.
pub proof fn lemma_layout_bounds(s_len: int, sizes: Seq<int>, w: int)
    requires
        0 <= s_len <= 0x10000,
        sizes.len() <= 0x10000,
        forall|i: int| 0 <= i < sizes.len() ==> sizes[i] >= 0,
        seq_sum(sizes) <= 0x10000,
        0 <= w <= 0x1000_0000,
    ensures
        ({
            let l = spec_layout(s_len, sizes, w);
            &&& l.diff_0 == 0
            &&& 0x20 <= l.batch_inv_1_end <= 0x20_0020
            &&& 0 <= l.batch_inv_2_end <= 0x20_0000
            &&& 0 <= l.free <= 0x40_0100
            &&& 0 <= l.mu_minus_point <= 0x60_0100
            &&& 0 <= l.vanishing <= 0x80_0100
            &&& 0 <= l.diff <= 0x80_0120
            &&& 0 <= l.r_eval <= 0xa0_0120
            &&& 0 <= l.sum <= 0xc0_0120
            &&& 0 <= l.end <= 0xe0_0120
            &&& l.w_cptr == w
            &&& l.w_prime_cptr == w + 0x40
            &&& l.coeff.len() == sizes.len()
            &&& forall|i: int|
                0 <= i < sizes.len() ==> 0x20 <= #[trigger] l.coeff[i] && l.coeff[i] + 0x20
                    * sizes[i] <= l.batch_inv_1_end
        }),
{
    let l = spec_layout(s_len, sizes, w);
    lemma_seq_sum_nonneg(sizes);
    assert forall|i: int| 0 <= i < sizes.len() implies 0x20 <= #[trigger] l.coeff[i] && l.coeff[i]
        + 0x20 * sizes[i] <= l.batch_inv_1_end by {
        lemma_seq_sum_prefix(sizes, i);
        lemma_seq_sum_prefix(sizes, i + 1);
        assert(sizes.subrange(0, i + 1).drop_last() =~= sizes.subrange(0, i));
        assert(sizes.subrange(0, i + 1).last() == sizes[i]);
        assert(l.coeff[i] == 0x20 + 0x20 * seq_sum(sizes.subrange(0, i)));
    }
}
} // verus!
