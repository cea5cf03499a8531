//! Dense two-dimensional tensors over fixed-point scalars.
//!
//! A tensor is a flat row-major buffer with a shape; `data[i*cols + j]` is
//! element `(i, j)`. The shape invariant `data.len() == rows * cols` holds
//! for every tensor this module produces. Operations never mutate their
//! operands (except the explicitly in-place `set_row`) and return new owned
//! tensors whose contents the contracts pin down exactly, element by
//! element, over the mathematical [`TensorView`] model.

use vstd::prelude::*;
use vstd::arithmetic::div_mod::{
    lemma_div_multiples_vanish, lemma_fundamental_div_mod, lemma_fundamental_div_mod_converse,
    lemma_multiply_divide_lt,
};
use vstd::arithmetic::mul::lemma_mul_is_commutative;
use vstd::pervasive::VecAdditionalExecFns;
use crate::fixed::{
    divn_nonneg, fx_add, fx_div, fx_divn, fx_exp_diff, fx_mul, fx_silu, fx_sqrt, fx_sub,
    lemma_fx_square_nonneg, spec_divn, spec_fx_add, spec_fx_div, spec_fx_exp, spec_fx_mul,
    spec_fx_silu, spec_fx_sub, spec_isqrt, FX_ONE,
};
use crate::rng::{normal_scalar, spec_nth_normal, spec_state_after, Rng64};

verus! {

/// Mathematical model of a tensor: a flat sequence of unbounded integers
/// with a shape.
#[verifier::ext_equal]
pub struct TensorView {
    pub data: Seq<int>,
    pub rows: int,
    pub cols: int,
}

impl TensorView {
    /// Shape invariant: the flat buffer holds exactly `rows * cols` scalars.
    pub open spec fn wf(self) -> bool {
        &&& self.rows >= 0
        &&& self.cols >= 0
        &&& self.data.len() == self.rows * self.cols
    }

    /// Element `(i, j)` in row-major order.
    pub open spec fn idx(self, i: int, j: int) -> int {
        self.data[i * self.cols + j]
    }

    /// Every element fits the representable scalar range.
    pub open spec fn in_range(self) -> bool {
        forall|p: int|
            0 <= p < self.data.len() ==> crate::fixed::fx_in_range(#[trigger] self.data[p])
    }
}

/// A position strictly inside a `rows * cols` row-major buffer.
pub proof fn lemma_rm_index(i: int, j: int, rows: int, cols: int)
    by (nonlinear_arith)
    requires
        0 <= i < rows,
        0 <= j < cols,
    ensures
        0 <= i * cols + j < rows * cols,
{
}

/// Row-major positions decompose uniquely into a row and a column.
pub proof fn lemma_rm_div(i: int, j: int, cols: int)
    requires
        0 <= i,
        0 <= j < cols,
    ensures
        (i * cols + j) / cols == i,
        (i * cols + j) % cols == j,
{
    lemma_fundamental_div_mod_converse(i * cols + j, cols, i, j);
}

/// The all-zero tensor of a given shape.
pub open spec fn tv_zeros(rows: int, cols: int) -> TensorView {
    TensorView { data: Seq::new((rows * cols) as nat, |p: int| 0), rows, cols }
}

/// Element-wise saturating sum of two equally shaped tensors.
pub open spec fn tv_add(a: TensorView, b: TensorView) -> TensorView {
    TensorView {
        data: Seq::new(a.data.len(), |p: int| spec_fx_add(a.data[p], b.data[p])),
        rows: a.rows,
        cols: a.cols,
    }
}

/// Element-wise saturating difference.
pub open spec fn tv_sub(a: TensorView, b: TensorView) -> TensorView {
    TensorView {
        data: Seq::new(a.data.len(), |p: int| spec_fx_sub(a.data[p], b.data[p])),
        rows: a.rows,
        cols: a.cols,
    }
}

/// Element-wise saturating product.
pub open spec fn tv_mul(a: TensorView, b: TensorView) -> TensorView {
    TensorView {
        data: Seq::new(a.data.len(), |p: int| spec_fx_mul(a.data[p], b.data[p])),
        rows: a.rows,
        cols: a.cols,
    }
}

/// Every element scaled by the scalar `s`.
pub open spec fn tv_scale(a: TensorView, s: int) -> TensorView {
    TensorView {
        data: Seq::new(a.data.len(), |p: int| spec_fx_mul(a.data[p], s)),
        rows: a.rows,
        cols: a.cols,
    }
}

/// Element-wise SiLU activation.
pub open spec fn tv_silu(a: TensorView) -> TensorView {
    TensorView {
        data: Seq::new(a.data.len(), |p: int| spec_fx_silu(a.data[p])),
        rows: a.rows,
        cols: a.cols,
    }
}

/// Saturating sum of squares of the first `k` entries of row `i`.
pub open spec fn row_sumsq(a: TensorView, i: int, k: nat) -> int
    decreases k,
{
    if k == 0 {
        0
    } else {
        spec_fx_add(
            row_sumsq(a, i, (k - 1) as nat),
            spec_fx_mul(a.idx(i, k - 1), a.idx(i, k - 1)),
        )
    }
}

/// Root-mean-square of row `i`: the square root of the mean square plus
/// `eps`, as a fixed-point scalar.
pub open spec fn row_rms(a: TensorView, i: int, eps: int) -> int {
    if a.cols <= 0 {
        0
    } else {
        spec_isqrt(
            spec_fx_add(row_sumsq(a, i, a.cols as nat) / a.cols, eps) * (FX_ONE as int),
        )
    }
}

/// Row-wise RMS normalization: each entry divided by its row's
/// root-mean-square; a degenerate row (zero RMS) normalizes to zeros.
pub open spec fn tv_rms_norm(a: TensorView, eps: int) -> TensorView {
    TensorView {
        data: Seq::new(
            a.data.len(),
            |p: int| spec_fx_div(a.data[p], row_rms(a, p / a.cols, eps)),
        ),
        rows: a.rows,
        cols: a.cols,
    }
}

/// Largest entry among the first `k` entries of row `i` (`k >= 1`).
pub open spec fn row_max(a: TensorView, i: int, k: nat) -> int
    decreases k,
{
    if k <= 1 {
        a.idx(i, 0)
    } else {
        let m = row_max(a, i, (k - 1) as nat);
        if a.idx(i, k - 1) > m {
            a.idx(i, k - 1)
        } else {
            m
        }
    }
}

/// The row maximum dominates every entry it covers.
pub proof fn lemma_row_max_ge(a: TensorView, i: int, k: nat, j: int)
    requires
        0 <= j < k,
    ensures
        a.idx(i, j) <= row_max(a, i, k),
    decreases k,
{
    if k > 1 && j < k - 1 {
        lemma_row_max_ge(a, i, (k - 1) as nat, j);
    }
}

/// The row maximum is attained by some entry it covers.
pub proof fn lemma_row_max_attained(a: TensorView, i: int, k: nat)
    requires
        k >= 1,
    ensures
        exists|j: int| 0 <= j < k && a.idx(i, j) == row_max(a, i, k),
    decreases k,
{
    if k <= 1 {
        assert(a.idx(i, 0) == row_max(a, i, k));
    } else {
        lemma_row_max_attained(a, i, (k - 1) as nat);
    }
}

/// Saturating sum of the shifted exponentials of the first `k` entries of
/// row `i`.
pub open spec fn row_expsum(a: TensorView, i: int, k: nat, mx: int) -> int
    decreases k,
{
    if k == 0 {
        0
    } else {
        spec_fx_add(row_expsum(a, i, (k - 1) as nat, mx), spec_fx_exp(a.idx(i, k - 1) - mx))
    }
}

/// Row-wise softmax, stabilized by the row maximum: each entry becomes
/// `exp(x - max) / sum(exp(x - max))`; a row whose exponential sum is zero
/// maps to zeros.
pub open spec fn tv_softmax(a: TensorView) -> TensorView {
    TensorView {
        data: Seq::new(
            a.data.len(),
            |p: int|
                {
                    let i = p / a.cols;
                    let mx = row_max(a, i, a.cols as nat);
                    spec_fx_div(
                        spec_fx_exp(a.data[p] - mx),
                        row_expsum(a, i, a.cols as nat, mx),
                    )
                },
        ),
        rows: a.rows,
        cols: a.cols,
    }
}

/// Plain (unsaturated) sum of the first `k` entries of row `i`.
pub open spec fn row_sum(a: TensorView, i: int, k: nat) -> int
    decreases k,
{
    if k == 0 {
        0
    } else {
        row_sum(a, i, (k - 1) as nat) + a.idx(i, k - 1)
    }
}

/// Plain (unsaturated) sum of the shifted exponentials of a row prefix.
pub open spec fn row_expsum_plain(a: TensorView, i: int, k: nat, mx: int) -> int
    decreases k,
{
    if k == 0 {
        0
    } else {
        row_expsum_plain(a, i, (k - 1) as nat, mx) + spec_fx_exp(a.idx(i, k - 1) - mx)
    }
}

/// With the row maximum as the shift and a moderate column count, the
/// saturating exponential sum never actually saturates: it equals the plain
/// sum and stays within `k * FX_ONE`.
proof fn lemma_expsum_exact(a: TensorView, i: int, k: nat, mx: int)
    requires
        forall|j: int| 0 <= j < k ==> #[trigger] a.idx(i, j) <= mx,
        k * (FX_ONE as int) <= crate::fixed::FX_MAX as int,
    ensures
        row_expsum(a, i, k, mx) == row_expsum_plain(a, i, k, mx),
        0 <= row_expsum_plain(a, i, k, mx) <= k * (FX_ONE as int),
    decreases k,
{
    if k > 0 {
        vstd::arithmetic::mul::lemma_mul_inequality(
            (k - 1) as int,
            k as int,
            FX_ONE as int,
        );
        lemma_expsum_exact(a, i, (k - 1) as nat, mx);
        crate::fixed::lemma_fx_exp_range(a.idx(i, k - 1) - mx);
        vstd::arithmetic::mul::lemma_mul_is_distributive_sub_other_way(
            FX_ONE as int,
            k as int,
            1,
        );
    }
}

/// Every shifted exponential is dominated by the plain sum that counts it.
proof fn lemma_expsum_term_le(a: TensorView, i: int, k: nat, mx: int, j: int)
    requires
        forall|jj: int| 0 <= jj < k ==> #[trigger] a.idx(i, jj) <= mx,
        0 <= j < k,
    ensures
        spec_fx_exp(a.idx(i, j) - mx) <= row_expsum_plain(a, i, k, mx),
    decreases k,
{
    crate::fixed::lemma_fx_exp_range(a.idx(i, k - 1) - mx);
    if j < k - 1 {
        lemma_expsum_term_le(a, i, (k - 1) as nat, mx, j);
    } else {
        lemma_expsum_nonneg(a, i, (k - 1) as nat, mx);
    }
}

/// The plain exponential sum is non-negative.
proof fn lemma_expsum_nonneg(a: TensorView, i: int, k: nat, mx: int)
    requires
        forall|jj: int| 0 <= jj < k ==> #[trigger] a.idx(i, jj) <= mx,
    ensures
        0 <= row_expsum_plain(a, i, k, mx),
    decreases k,
{
    if k > 0 {
        lemma_expsum_nonneg(a, i, (k - 1) as nat, mx);
        crate::fixed::lemma_fx_exp_range(a.idx(i, k - 1) - mx);
    }
}

/// Partial-row accounting for the softmax bounds: each produced entry lies
/// in `[0, FX_ONE]`, and the scaled partial sum tracks the plain
/// exponential sum to within one unit of rounding per entry.
proof fn lemma_softmax_partial(a: TensorView, i: int, k: nat)
    requires
        a.wf(),
        1 <= a.cols,
        a.cols * (FX_ONE as int) <= crate::fixed::FX_MAX as int,
        0 <= i < a.rows,
        k <= a.cols,
    ensures
        forall|j: int|
            0 <= j < k ==> 0 <= #[trigger] tv_softmax(a).idx(i, j) <= FX_ONE as int,
        row_expsum(a, i, a.cols as nat, row_max(a, i, a.cols as nat)) * row_sum(
            tv_softmax(a),
            i,
            k,
        ) <= (FX_ONE as int) * row_expsum_plain(a, i, k, row_max(a, i, a.cols as nat)),
        row_expsum(a, i, a.cols as nat, row_max(a, i, a.cols as nat)) * row_sum(
            tv_softmax(a),
            i,
            k,
        ) >= (FX_ONE as int) * row_expsum_plain(a, i, k, row_max(a, i, a.cols as nat)) - k
            * row_expsum(a, i, a.cols as nat, row_max(a, i, a.cols as nat)),
    decreases k,
{
    let mx = row_max(a, i, a.cols as nat);
    let cols = a.cols;
    let n = cols as nat;
    assert forall|j: int| 0 <= j < n implies #[trigger] a.idx(i, j) <= mx by {
        lemma_row_max_ge(a, i, n, j);
    };
    vstd::arithmetic::mul::lemma_mul_inequality(k as int, cols, FX_ONE as int);
    lemma_expsum_exact(a, i, n, mx);
    let total = row_expsum(a, i, n, mx);
    lemma_row_max_attained(a, i, n);
    let jstar = choose|j: int| 0 <= j < n && a.idx(i, j) == mx;
    crate::fixed::lemma_fx_exp_range(0);
    lemma_expsum_term_le(a, i, n, mx, jstar);
    assert(total >= FX_ONE as int);
    if k > 0 {
        lemma_softmax_partial(a, i, (k - 1) as nat);
        let out = tv_softmax(a);
        let j = k - 1;
        let p = i * cols + j;
        lemma_rm_index(i, j, a.rows, cols);
        lemma_rm_div(i, j, cols);
        let e = spec_fx_exp(a.idx(i, j) - mx);
        crate::fixed::lemma_fx_exp_range(a.idx(i, j) - mx);
        lemma_expsum_term_le(a, i, n, mx, j);
        assert(e <= total);
        // the produced entry is the exact floor of e * FX_ONE / total
        vstd::arithmetic::mul::lemma_mul_inequality(e, total, FX_ONE as int);
        vstd::arithmetic::div_mod::lemma_div_is_ordered(
            e * (FX_ONE as int),
            total * (FX_ONE as int),
            total,
        );
        lemma_mul_is_commutative(total, FX_ONE as int);
        lemma_div_multiples_vanish(FX_ONE as int, total);
        vstd::arithmetic::div_mod::lemma_div_pos_is_pos(e * (FX_ONE as int), total);
        let o = (e * (FX_ONE as int)) / total;
        assert(out.idx(i, j) == o);
        vstd::arithmetic::div_mod::lemma_fundamental_div_mod(e * (FX_ONE as int), total);
        vstd::arithmetic::div_mod::lemma_mod_division_less_than_divisor(
            e * (FX_ONE as int),
            total,
        );
        // fold the new entry into the scaled partial sums
        vstd::arithmetic::mul::lemma_mul_is_distributive_add(
            total,
            row_sum(out, i, (k - 1) as nat),
            o,
        );
        vstd::arithmetic::mul::lemma_mul_is_distributive_add(
            FX_ONE as int,
            row_expsum_plain(a, i, (k - 1) as nat, mx),
            e,
        );
        lemma_mul_is_commutative(FX_ONE as int, e);
        vstd::arithmetic::mul::lemma_mul_is_distributive_sub_other_way(
            total,
            k as int,
            1,
        );
        let rs1 = row_sum(out, i, (k - 1) as nat);
        let ep1 = row_expsum_plain(a, i, (k - 1) as nat, mx);
        assert(row_sum(out, i, k) == rs1 + o);
        assert(row_expsum_plain(a, i, k, mx) == ep1 + e);
        assert(total * (rs1 + o) == total * rs1 + total * o);
        assert((FX_ONE as int) * (ep1 + e) == (FX_ONE as int) * ep1 + (FX_ONE as int) * e);
        assert(total * o > e * (FX_ONE as int) - total);
        assert(total * o <= e * (FX_ONE as int));
        assert((k as int) * total == ((k - 1) as int) * total + total);
    }
}

/// Row-wise softmax output: every entry is non-negative and at most one,
/// and each row sums to one, up to one unit of rounding per column.
pub proof fn lemma_softmax_rows(a: TensorView, i: int)
    requires
        a.wf(),
        1 <= a.cols,
        a.cols * (FX_ONE as int) <= crate::fixed::FX_MAX as int,
        0 <= i < a.rows,
    ensures
        forall|j: int|
            0 <= j < a.cols ==> 0 <= #[trigger] tv_softmax(a).idx(i, j) <= FX_ONE as int,
        (FX_ONE as int) - a.cols <= row_sum(tv_softmax(a), i, a.cols as nat),
        row_sum(tv_softmax(a), i, a.cols as nat) <= FX_ONE as int,
{
    let mx = row_max(a, i, a.cols as nat);
    let n = a.cols as nat;
    lemma_softmax_partial(a, i, n);
    assert forall|j: int| 0 <= j < n implies #[trigger] a.idx(i, j) <= mx by {
        lemma_row_max_ge(a, i, n, j);
    };
    vstd::arithmetic::mul::lemma_mul_inequality(a.cols, a.cols, FX_ONE as int);
    lemma_expsum_exact(a, i, n, mx);
    let total = row_expsum(a, i, n, mx);
    lemma_row_max_attained(a, i, n);
    let jstar = choose|j: int| 0 <= j < n && a.idx(i, j) == mx;
    crate::fixed::lemma_fx_exp_range(0);
    lemma_expsum_term_le(a, i, n, mx, jstar);
    assert(total >= FX_ONE as int);
    let rs = row_sum(tv_softmax(a), i, n);
    // upper bound: total * rs <= total * FX_ONE implies rs <= FX_ONE
    lemma_mul_is_commutative(FX_ONE as int, total);
    assert(total * rs <= total * (FX_ONE as int));
    lemma_mul_is_commutative(total, rs);
    lemma_mul_is_commutative(total, FX_ONE as int);
    vstd::arithmetic::mul::lemma_mul_inequality_converse(rs, FX_ONE as int, total);
    // lower bound: total * rs >= (FX_ONE - cols) * total implies the same of rs
    vstd::arithmetic::mul::lemma_mul_is_distributive_sub_other_way(
        total,
        FX_ONE as int,
        a.cols,
    );
    lemma_mul_is_commutative(a.cols, total);
    assert(total * rs >= ((FX_ONE as int) - a.cols) * total);
    lemma_mul_is_commutative(total, rs);
    lemma_mul_is_commutative((FX_ONE as int) - a.cols, total);
    vstd::arithmetic::mul::lemma_mul_inequality_converse(
        (FX_ONE as int) - a.cols,
        rs,
        total,
    );
}

/// A contiguous band of `len` columns starting at column `lo`.
pub open spec fn tv_slice_cols(a: TensorView, lo: int, len: int) -> TensorView {
    TensorView {
        data: Seq::new(
            (a.rows * len) as nat,
            |p: int| a.data[(p / len) * a.cols + lo + p % len],
        ),
        rows: a.rows,
        cols: len,
    }
}

/// Saturating sum of the first `k` elements of the flat buffer.
pub open spec fn tv_sum(a: TensorView, k: nat) -> int
    decreases k,
{
    if k == 0 {
        0
    } else {
        spec_fx_add(tv_sum(a, (k - 1) as nat), a.data[k - 1])
    }
}

/// Global population mean of all elements.
pub open spec fn tv_mean(a: TensorView) -> int {
    spec_divn(tv_sum(a, a.data.len()), a.data.len() as int)
}

/// Saturating sum of squared deviations from `mu` over the first `k`
/// elements.
pub open spec fn tv_varsum(a: TensorView, k: nat, mu: int) -> int
    decreases k,
{
    if k == 0 {
        0
    } else {
        spec_fx_add(
            tv_varsum(a, (k - 1) as nat, mu),
            spec_fx_mul(spec_fx_sub(a.data[k - 1], mu), spec_fx_sub(a.data[k - 1], mu)),
        )
    }
}

/// Saturating sum of absolute values of the first `k` elements.
pub open spec fn tv_abs_sum(a: TensorView, k: nat) -> int
    decreases k,
{
    if k == 0 {
        0
    } else {
        spec_fx_add(tv_abs_sum(a, (k - 1) as nat), crate::fixed::spec_fx_abs(a.data[k - 1]))
    }
}

/// Global population standard deviation.
pub open spec fn tv_stddev(a: TensorView) -> int {
    spec_isqrt(
        spec_divn(tv_varsum(a, a.data.len(), tv_mean(a)), a.data.len() as int)
            * (FX_ONE as int),
    )
}

/// A tensor of normal samples: element `p` is the `p`-th Box-Muller draw
/// from a generator seeded with `s`.
pub open spec fn tv_randn(rows: int, cols: int, std: int, s: u64) -> TensorView {
    TensorView {
        data: Seq::new((rows * cols) as nat, |p: int| spec_nth_normal(s, p as nat, std)),
        rows,
        cols,
    }
}

/// Sum of squares of a row of unit scalars.
proof fn lemma_sumsq_unit(a: TensorView, i: int, k: nat)
    requires
        a.wf(),
        a.cols <= 1048576,
        0 <= i < a.rows,
        k <= a.cols,
        forall|p: int| 0 <= p < a.data.len() ==> a.data[p] == FX_ONE as int,
    ensures
        row_sumsq(a, i, k) == k * (FX_ONE as int),
    decreases k,
{
    if k > 0 {
        lemma_sumsq_unit(a, i, (k - 1) as nat);
        lemma_rm_index(i, k - 1, a.rows, a.cols);
        lemma_div_multiples_vanish(FX_ONE as int, FX_ONE as int);
        assert(spec_fx_mul(FX_ONE as int, FX_ONE as int) == FX_ONE as int);
        vstd::arithmetic::mul::lemma_mul_inequality(k as int, 1048576, FX_ONE as int);
        vstd::arithmetic::mul::lemma_mul_is_distributive_sub_other_way(
            FX_ONE as int,
            k as int,
            1,
        );
        vstd::arithmetic::mul::lemma_mul_nonnegative(k as int, FX_ONE as int);
    }
}

/// RMS normalization at its fixed point: a tensor of unit scalars has
/// unit root-mean-square rows already, so with a vanishing eps it
/// normalizes to itself, exactly.
pub proof fn lemma_rms_norm_unit_rows(a: TensorView)
    requires
        a.wf(),
        1 <= a.cols <= 1048576,
        forall|p: int| 0 <= p < a.data.len() ==> a.data[p] == FX_ONE as int,
    ensures
        tv_rms_norm(a, 0) == a,
{
    let out = tv_rms_norm(a, 0);
    lemma_mul_is_commutative(a.rows, a.cols);
    assert forall|p: int| 0 <= p < out.data.len() implies out.data[p] == a.data[p] by {
        let i = p / a.cols;
        lemma_multiply_divide_lt(p, a.cols, a.rows);
        vstd::arithmetic::div_mod::lemma_div_pos_is_pos(p, a.cols);
        lemma_sumsq_unit(a, i, a.cols as nat);
        lemma_mul_is_commutative(a.cols, FX_ONE as int);
        lemma_div_multiples_vanish(FX_ONE as int, a.cols);
        assert(row_sumsq(a, i, a.cols as nat) / a.cols == FX_ONE as int);
        assert((FX_ONE as int) * (FX_ONE as int) < ((FX_ONE as int) + 1) * ((FX_ONE as int)
            + 1)) by (nonlinear_arith);
        crate::fixed::lemma_isqrt_is((FX_ONE as int) * (FX_ONE as int), FX_ONE as int);
        assert(row_rms(a, i, 0) == FX_ONE as int);
        lemma_div_multiples_vanish(FX_ONE as int, FX_ONE as int);
        assert(spec_fx_div(FX_ONE as int, FX_ONE as int) == FX_ONE as int);
    };
    assert(out =~= a);
}

/// The transpose: shape `[cols, rows]` with `result[j, i] == a[i, j]`.
pub open spec fn tv_transpose(a: TensorView) -> TensorView {
    TensorView {
        data: Seq::new(a.data.len(), |p: int| a.data[(p % a.rows) * a.cols + p / a.rows]),
        rows: a.cols,
        cols: a.rows,
    }
}

/// The identity-shaped projection: ones on the diagonal, zeros elsewhere.
pub open spec fn tv_identity(n: int) -> TensorView {
    TensorView {
        data: Seq::new(
            (n * n) as nat,
            |p: int| if p / n == p % n {
                FX_ONE as int
            } else {
                0
            },
        ),
        rows: n,
        cols: n,
    }
}

/// Entry `(i, j)` of a matrix product, accumulated left to right over the
/// first `k` summands with saturating scalar arithmetic.
pub open spec fn mm_entry(a: TensorView, b: TensorView, i: int, j: int, k: nat) -> int
    decreases k,
{
    if k == 0 {
        0
    } else {
        spec_fx_add(
            mm_entry(a, b, i, j, (k - 1) as nat),
            spec_fx_mul(a.idx(i, k - 1), b.idx(k - 1, j)),
        )
    }
}

/// The dense matrix product of `[m, k]` by `[k, n]`, shape `[m, n]`.
pub open spec fn tv_matmul(a: TensorView, b: TensorView) -> TensorView {
    TensorView {
        data: Seq::new(
            (a.rows * b.cols) as nat,
            |p: int| mm_entry(a, b, p / b.cols, p % b.cols, a.cols as nat),
        ),
        rows: a.rows,
        cols: b.cols,
    }
}

/// Transposing twice reproduces the tensor exactly, element for element.
pub proof fn lemma_transpose_involution(a: TensorView)
    requires
        a.wf(),
    ensures
        tv_transpose(tv_transpose(a)) == a,
{
    let t = tv_transpose(a);
    let tt = tv_transpose(t);
    lemma_mul_is_commutative(a.rows, a.cols);
    assert forall|p: int| 0 <= p < tt.data.len() implies tt.data[p] == a.data[p] by {
        if a.cols == 0 {
            assert(a.rows * a.cols == 0) by (nonlinear_arith)
                requires
                    a.cols == 0,
            ;
        }
        let i = p / a.cols;
        let j = p % a.cols;
        lemma_fundamental_div_mod(p, a.cols);
        lemma_multiply_divide_lt(p, a.cols, a.rows);
        let q = j * a.rows + i;
        lemma_rm_div(j, i, a.rows);
        lemma_rm_index(j, i, a.cols, a.rows);
        assert(tt.data[p] == t.data[q]);
        assert(t.data[q] == a.data[i * a.cols + j]);
    };
    assert(tt =~= a);
}

/// A product accumulated against the identity reproduces one entry of the
/// left operand: zero until the diagonal summand arrives, the entry after.
proof fn lemma_mm_identity_entry(a: TensorView, i: int, j: int, k: nat)
    requires
        a.wf(),
        a.in_range(),
        0 <= i < a.rows,
        0 <= j < a.cols,
        k <= a.cols,
    ensures
        mm_entry(a, tv_identity(a.cols), i, j, k) == if k <= j {
            0int
        } else {
            a.idx(i, j)
        },
    decreases k,
{
    let n = a.cols;
    let id = tv_identity(n);
    if k > 0 {
        lemma_mm_identity_entry(a, i, j, (k - 1) as nat);
        lemma_rm_div(k - 1, j, n);
        lemma_rm_index(k - 1, j, n, n);
        assert(id.idx(k - 1, j) == if k - 1 == j {
            FX_ONE as int
        } else {
            0int
        });
        let x = a.idx(i, k - 1);
        if k - 1 == j {
            lemma_div_multiples_vanish(crate::fixed::iabs(x), FX_ONE as int);
            lemma_mul_is_commutative(crate::fixed::iabs(x), FX_ONE as int);
            assert(spec_fx_mul(x, FX_ONE as int) == x) by {
                lemma_rm_index(i, j, a.rows, a.cols);
            }
        } else {
            vstd::arithmetic::mul::lemma_mul_by_zero_is_zero(crate::fixed::iabs(x));
            assert(spec_fx_mul(x, 0) == 0);
        }
    }
}

/// Multiplying by the identity-shaped projection returns the input
/// unchanged, exactly.
pub proof fn lemma_matmul_identity(a: TensorView)
    requires
        a.wf(),
        a.in_range(),
    ensures
        tv_matmul(a, tv_identity(a.cols)) == a,
{
    let id = tv_identity(a.cols);
    let m = tv_matmul(a, id);
    lemma_mul_is_commutative(a.rows, a.cols);
    assert forall|p: int| 0 <= p < m.data.len() implies m.data[p] == a.data[p] by {
        if a.cols == 0 {
            assert(a.rows * a.cols == 0) by (nonlinear_arith)
                requires
                    a.cols == 0,
            ;
        }
        let i = p / a.cols;
        let j = p % a.cols;
        lemma_fundamental_div_mod(p, a.cols);
        lemma_multiply_divide_lt(p, a.cols, a.rows);
        lemma_mm_identity_entry(a, i, j, a.cols as nat);
        assert(a.data[i * a.cols + j] == a.data[p]);
    };
    assert(m =~= a);
}

/// Dense two-dimensional tensor (row-major) of fixed-point scalars.
pub struct Tensor {
    data: Vec<i64>,
    rows: usize,
    cols: usize,
}

impl View for Tensor {
    type V = TensorView;

    closed spec fn view(&self) -> TensorView {
        TensorView {
            data: Seq::new(self.data@.len() as nat, |p: int| self.data@[p] as int),
            rows: self.rows as int,
            cols: self.cols as int,
        }
    }
}

impl Tensor {
    /// Number of rows.
    pub fn rows(&self) -> (r: usize)
        ensures
            r as int == self@.rows,
    {
        self.rows
    }

    /// Number of columns.
    pub fn cols(&self) -> (r: usize)
        ensures
            r as int == self@.cols,
    {
        self.cols
    }

    /// Element `(i, j)`.
    pub fn get(&self, i: usize, j: usize) -> (r: i64)
        requires
            self@.wf(),
            0 <= i < self@.rows,
            0 <= j < self@.cols,
        ensures
            r as int == self@.idx(i as int, j as int),
    {
        let n = self.data.len();
        proof {
            lemma_rm_index(i as int, j as int, self@.rows, self@.cols);
            assert(i * self@.cols + j < n);
        }
        self.data[i * self.cols + j]
    }

    /// Build a tensor from a flat row-major buffer.
    pub fn from_vec(data: Vec<i64>, rows: usize, cols: usize) -> (r: Tensor)
        requires
            data@.len() == rows * cols,
        ensures
            r@.wf(),
            r@.rows == rows,
            r@.cols == cols,
            forall|p: int| 0 <= p < data@.len() ==> r@.data[p] == data@[p] as int,
    {
        Tensor { data, rows, cols }
    }

    /// A fresh zero-filled tensor.
    pub fn zeros(rows: usize, cols: usize) -> (r: Tensor)
        requires
            rows * cols <= usize::MAX,
        ensures
            r@ == tv_zeros(rows as int, cols as int),
            r@.wf(),
    {
        let n = rows * cols;
        let mut data: Vec<i64> = Vec::new();
        let mut p: usize = 0;
        while p < n
            invariant
                p <= n,
                data@.len() == p,
                forall|q: int| 0 <= q < p ==> data@[q] == 0,
            decreases n - p,
        {
            data.push(0);
            p = p + 1;
        }
        let r = Tensor { data, rows, cols };
        proof {
            assert(r@ =~= tv_zeros(rows as int, cols as int));
        }
        r
    }

    /// Element-wise addition; shapes must match exactly.
    pub fn add(&self, other: &Tensor) -> (r: Tensor)
        requires
            self@.wf(),
            other@.wf(),
            self@.rows == other@.rows,
            self@.cols == other@.cols,
        ensures
            r@ == tv_add(self@, other@),
            r@.wf(),
    {
        let n = self.data.len();
        let mut data: Vec<i64> = Vec::new();
        let mut p: usize = 0;
        while p < n
            invariant
                p <= n,
                n == self@.data.len(),
                n == other@.data.len(),
                self@.wf(),
                other@.wf(),
                data@.len() == p,
                forall|q: int|
                    0 <= q < p ==> data@[q] as int == spec_fx_add(self@.data[q], other@.data[q]),
            decreases n - p,
        {
            data.push(fx_add(self.data[p], other.data[p]));
            p = p + 1;
        }
        let r = Tensor { data, rows: self.rows, cols: self.cols };
        proof {
            assert(r@ =~= tv_add(self@, other@));
        }
        r
    }

    /// Element-wise subtraction; shapes must match exactly.
    pub fn sub(&self, other: &Tensor) -> (r: Tensor)
        requires
            self@.wf(),
            other@.wf(),
            self@.rows == other@.rows,
            self@.cols == other@.cols,
        ensures
            r@ == tv_sub(self@, other@),
            r@.wf(),
    {
        let n = self.data.len();
        let mut data: Vec<i64> = Vec::new();
        let mut p: usize = 0;
        while p < n
            invariant
                p <= n,
                n == self@.data.len(),
                n == other@.data.len(),
                self@.wf(),
                other@.wf(),
                data@.len() == p,
                forall|q: int|
                    0 <= q < p ==> data@[q] as int == spec_fx_sub(self@.data[q], other@.data[q]),
            decreases n - p,
        {
            data.push(fx_sub(self.data[p], other.data[p]));
            p = p + 1;
        }
        let r = Tensor { data, rows: self.rows, cols: self.cols };
        proof {
            assert(r@ =~= tv_sub(self@, other@));
        }
        r
    }

    /// Element-wise (Hadamard) multiplication; shapes must match exactly.
    pub fn mul(&self, other: &Tensor) -> (r: Tensor)
        requires
            self@.wf(),
            other@.wf(),
            self@.rows == other@.rows,
            self@.cols == other@.cols,
        ensures
            r@ == tv_mul(self@, other@),
            r@.wf(),
    {
        let n = self.data.len();
        let mut data: Vec<i64> = Vec::new();
        let mut p: usize = 0;
        while p < n
            invariant
                p <= n,
                n == self@.data.len(),
                n == other@.data.len(),
                self@.wf(),
                other@.wf(),
                data@.len() == p,
                forall|q: int|
                    0 <= q < p ==> data@[q] as int == spec_fx_mul(self@.data[q], other@.data[q]),
            decreases n - p,
        {
            data.push(fx_mul(self.data[p], other.data[p]));
            p = p + 1;
        }
        let r = Tensor { data, rows: self.rows, cols: self.cols };
        proof {
            assert(r@ =~= tv_mul(self@, other@));
        }
        r
    }

    /// A fresh tensor of normally distributed scalars with standard
    /// deviation `std / FX_ONE`, drawn from the given generator by the
    /// Box-Muller transform.
    pub fn randn(rows: usize, cols: usize, std: i64, rng: &mut Rng64) -> (r: Tensor)
        requires
            rows * cols <= usize::MAX,
        ensures
            r@ == tv_randn(rows as int, cols as int, std as int, old(rng).state),
            r@.wf(),
            final(rng).state == spec_state_after(old(rng).state, (rows * cols) as nat),
    {
        let ghost s0 = rng.state;
        let n = rows * cols;
        let mut data: Vec<i64> = Vec::new();
        let mut p: usize = 0;
        while p < n
            invariant
                p <= n,
                data@.len() == p,
                rng.state == spec_state_after(s0, p as nat),
                forall|q: int|
                    0 <= q < p ==> data@[q] as int == spec_nth_normal(s0, q as nat, std as int),
            decreases n - p,
        {
            let v = normal_scalar(rng, std);
            data.push(v);
            p = p + 1;
        }
        let r = Tensor { data, rows, cols };
        proof {
            assert(r@ =~= tv_randn(rows as int, cols as int, std as int, s0));
        }
        r
    }

    /// Mean of all elements; the tensor must be non-empty.
    pub fn mean(&self) -> (r: i64)
        requires
            self@.wf(),
            self@.data.len() >= 1,
        ensures
            r as int == tv_mean(self@),
    {
        let n = self.data.len();
        let mut acc: i64 = 0;
        let mut p: usize = 0;
        while p < n
            invariant
                p <= n,
                n == self@.data.len(),
                self@.wf(),
                acc as int == tv_sum(self@, p as nat),
            decreases n - p,
        {
            acc = fx_add(acc, self.data[p]);
            p = p + 1;
        }
        fx_divn(acc, n as u64)
    }

    /// Mean absolute value of all elements; the tensor must be non-empty.
    pub fn mean_abs(&self) -> (r: i64)
        requires
            self@.wf(),
            self@.data.len() >= 1,
        ensures
            r as int == spec_divn(tv_abs_sum(self@, self@.data.len()), self@.data.len() as int),
            0 <= r,
    {
        let n = self.data.len();
        let mut acc: i64 = 0;
        let mut p: usize = 0;
        while p < n
            invariant
                p <= n,
                n == self@.data.len(),
                self@.wf(),
                0 <= acc,
                acc as int == tv_abs_sum(self@, p as nat),
            decreases n - p,
        {
            acc = fx_add(acc, crate::fixed::fx_abs(self.data[p]));
            p = p + 1;
        }
        let r = divn_nonneg(acc, n as u64);
        proof {
            vstd::arithmetic::div_mod::lemma_div_pos_is_pos(acc as int, n as int);
        }
        r
    }

    /// Population standard deviation of all elements; the tensor must be
    /// non-empty.
    pub fn stddev(&self) -> (r: i64)
        requires
            self@.wf(),
            self@.data.len() >= 1,
        ensures
            r as int == tv_stddev(self@),
    {
        let mu = self.mean();
        let n = self.data.len();
        let mut acc: i64 = 0;
        let mut p: usize = 0;
        while p < n
            invariant
                p <= n,
                n == self@.data.len(),
                self@.wf(),
                mu as int == tv_mean(self@),
                0 <= acc,
                acc as int == tv_varsum(self@, p as nat, mu as int),
            decreases n - p,
        {
            let d = fx_sub(self.data[p], mu);
            proof {
                lemma_fx_square_nonneg(d as int);
            }
            acc = fx_add(acc, fx_mul(d, d));
            p = p + 1;
        }
        let v = divn_nonneg(acc, n as u64);
        proof {
            vstd::arithmetic::div_mod::lemma_div_pos_is_pos(acc as int, n as int);
        }
        fx_sqrt(v)
    }

    /// Copy of row `i`.
    pub fn row(&self, i: usize) -> (r: Vec<i64>)
        requires
            self@.wf(),
            0 <= i < self@.rows,
        ensures
            r@.len() == self@.cols,
            forall|j: int| 0 <= j < self@.cols ==> r@[j] as int == self@.idx(i as int, j),
    {
        let mut out: Vec<i64> = Vec::new();
        let mut j: usize = 0;
        while j < self.cols
            invariant
                i < self@.rows,
                j <= self@.cols,
                self@.wf(),
                out@.len() == j,
                forall|q: int| 0 <= q < j ==> out@[q] as int == self@.idx(i as int, q),
            decreases self@.cols - j,
        {
            out.push(self.get(i, j));
            j = j + 1;
        }
        out
    }

    /// Overwrite row `i` in place with the given values.
    pub fn set_row(&mut self, i: usize, values: &Vec<i64>)
        requires
            old(self)@.wf(),
            0 <= i < old(self)@.rows,
            values@.len() == old(self)@.cols,
        ensures
            final(self)@.wf(),
            final(self)@.rows == old(self)@.rows,
            final(self)@.cols == old(self)@.cols,
            forall|j: int|
                0 <= j < final(self)@.cols ==> final(self)@.idx(i as int, j) == values@[j] as int,
            forall|p: int|
                0 <= p < final(self)@.data.len() && !((i as int) * final(self)@.cols <= p < (
                i as int) * final(self)@.cols + final(self)@.cols) ==> final(self)@.data[p] == old(
                    self,
                )@.data[p],
    {
        let n = self.data.len();
        let mut j: usize = 0;
        while j < self.cols
            invariant
                i < self@.rows,
                j <= self@.cols,
                self@.wf(),
                self@.rows == old(self)@.rows,
                self@.cols == old(self)@.cols,
                n == self@.data.len(),
                forall|q: int| 0 <= q < j ==> self@.idx(i as int, q) == values@[q] as int,
                values@.len() == self@.cols,
                forall|p: int|
                    0 <= p < self@.data.len() && !((i as int) * self@.cols <= p < (i as int)
                        * self@.cols + j) ==> self@.data[p] == old(self)@.data[p],
            decreases self@.cols - j,
        {
            proof {
                lemma_rm_index(i as int, j as int, self@.rows, self@.cols);
            }
            self.data.set(i * self.cols + j, values[j]);
            j = j + 1;
        }
    }

    /// Flat copy of the whole buffer, row-major.
    pub fn to_flat_vec(&self) -> (r: Vec<i64>)
        ensures
            r@.len() == self@.data.len(),
            forall|p: int| 0 <= p < r@.len() ==> r@[p] as int == self@.data[p],
    {
        let n = self.data.len();
        let mut out: Vec<i64> = Vec::new();
        let mut p: usize = 0;
        while p < n
            invariant
                p <= n,
                n == self@.data.len(),
                out@.len() == p,
                forall|q: int| 0 <= q < p ==> out@[q] as int == self@.data[q],
            decreases n - p,
        {
            out.push(self.data[p]);
            p = p + 1;
        }
        out
    }

    /// Flat copy of the first `n` elements (or all of them, if fewer).
    pub fn flat_prefix(&self, n: usize) -> (r: Vec<i64>)
        ensures
            r@.len() == if n <= self@.data.len() {
                n as int
            } else {
                self@.data.len() as int
            },
            forall|p: int| 0 <= p < r@.len() ==> r@[p] as int == self@.data[p],
    {
        let m = if n <= self.data.len() {
            n
        } else {
            self.data.len()
        };
        let mut out: Vec<i64> = Vec::new();
        let mut p: usize = 0;
        while p < m
            invariant
                p <= m,
                m <= self@.data.len(),
                out@.len() == p,
                forall|q: int| 0 <= q < p ==> out@[q] as int == self@.data[q],
            decreases m - p,
        {
            out.push(self.data[p]);
            p = p + 1;
        }
        out
    }

    /// Copy of the contiguous band of `len` columns starting at `lo`.
    pub fn slice_cols(&self, lo: usize, len: usize) -> (r: Tensor)
        requires
            self@.wf(),
            lo + len <= self@.cols,
        ensures
            r@ == tv_slice_cols(self@, lo as int, len as int),
            r@.wf(),
    {
        let mut data: Vec<i64> = Vec::new();
        let mut i: usize = 0;
        while i < self.rows
            invariant
                i <= self@.rows,
                self@.wf(),
                lo + len <= self@.cols,
                data@.len() == i * (len as int),
                forall|q: int|
                    0 <= q < data@.len() ==> data@[q] as int == tv_slice_cols(
                        self@,
                        lo as int,
                        len as int,
                    ).data[q],
            decreases self@.rows - i,
        {
            let mut j: usize = 0;
            while j < len
                invariant
                    i < self@.rows,
                    j <= len,
                    self@.wf(),
                    lo + len <= self@.cols,
                    data@.len() == i * (len as int) + j,
                    forall|q: int|
                        0 <= q < data@.len() ==> data@[q] as int == tv_slice_cols(
                            self@,
                            lo as int,
                            len as int,
                        ).data[q],
                decreases len - j,
            {
                proof {
                    lemma_rm_index(i as int, j as int, self@.rows, len as int);
                    lemma_rm_div(i as int, j as int, len as int);
                }
                let v = self.get(i, lo + j);
                data.push(v);
                j = j + 1;
            }
            proof {
                vstd::arithmetic::mul::lemma_mul_is_distributive_add_other_way(
                    len as int,
                    i as int,
                    1,
                );
            }
            i = i + 1;
        }
        let r = Tensor { data, rows: self.rows, cols: len };
        proof {
            assert(r@ =~= tv_slice_cols(self@, lo as int, len as int));
        }
        r
    }

    /// Element-wise SiLU activation `x * sigmoid(x)`.
    pub fn silu(&self) -> (r: Tensor)
        requires
            self@.wf(),
        ensures
            r@ == tv_silu(self@),
            r@.wf(),
    {
        let n = self.data.len();
        let mut data: Vec<i64> = Vec::new();
        let mut p: usize = 0;
        while p < n
            invariant
                p <= n,
                n == self@.data.len(),
                self@.wf(),
                data@.len() == p,
                forall|q: int| 0 <= q < p ==> data@[q] as int == spec_fx_silu(self@.data[q]),
            decreases n - p,
        {
            data.push(fx_silu(self.data[p]));
            p = p + 1;
        }
        let r = Tensor { data, rows: self.rows, cols: self.cols };
        proof {
            assert(r@ =~= tv_silu(self@));
        }
        r
    }

    /// Row-wise RMS normalization with the given non-negative `eps`.
    pub fn rms_norm(&self, eps: i64) -> (r: Tensor)
        requires
            self@.wf(),
            0 <= eps,
        ensures
            r@ == tv_rms_norm(self@, eps as int),
            r@.wf(),
    {
        let mut data: Vec<i64> = Vec::new();
        if self.cols == 0 {
            proof {
                assert(self@.rows * self@.cols == 0) by (nonlinear_arith)
                    requires
                        self@.cols == 0,
                ;
            }
            let r = Tensor { data, rows: self.rows, cols: self.cols };
            proof {
                assert(r@ =~= tv_rms_norm(self@, eps as int));
            }
            return r;
        }
        let mut i: usize = 0;
        while i < self.rows
            invariant
                i <= self@.rows,
                self@.wf(),
                self@.cols >= 1,
                0 <= eps,
                data@.len() == i * self@.cols,
                forall|q: int|
                    0 <= q < data@.len() ==> data@[q] as int == tv_rms_norm(
                        self@,
                        eps as int,
                    ).data[q],
            decreases self@.rows - i,
        {
            let mut ss: i64 = 0;
            let mut j: usize = 0;
            while j < self.cols
                invariant
                    i < self@.rows,
                    j <= self@.cols,
                    self@.wf(),
                    0 <= ss,
                    ss as int == row_sumsq(self@, i as int, j as nat),
                decreases self@.cols - j,
            {
                let x = self.get(i, j);
                proof {
                    lemma_fx_square_nonneg(x as int);
                }
                ss = fx_add(ss, fx_mul(x, x));
                j = j + 1;
            }
            let ms = divn_nonneg(ss, self.cols as u64);
            let msp = fx_add(ms, eps);
            proof {
                vstd::arithmetic::div_mod::lemma_div_pos_is_pos(ss as int, self@.cols);
            }
            let rms = fx_sqrt(msp);
            let mut j2: usize = 0;
            while j2 < self.cols
                invariant
                    i < self@.rows,
                    j2 <= self@.cols,
                    self@.wf(),
                    self@.cols >= 1,
                    0 <= rms,
                    rms as int == row_rms(self@, i as int, eps as int),
                    data@.len() == i * self@.cols + j2,
                    forall|q: int|
                        0 <= q < data@.len() ==> data@[q] as int == tv_rms_norm(
                            self@,
                            eps as int,
                        ).data[q],
                decreases self@.cols - j2,
            {
                let x = self.get(i, j2);
                let o = if rms > 0 {
                    fx_div(x, rms)
                } else {
                    0
                };
                proof {
                    lemma_rm_index(i as int, j2 as int, self@.rows, self@.cols);
                    lemma_rm_div(i as int, j2 as int, self@.cols);
                }
                data.push(o);
                j2 = j2 + 1;
            }
            proof {
                vstd::arithmetic::mul::lemma_mul_is_distributive_add_other_way(
                    self@.cols,
                    i as int,
                    1,
                );
            }
            i = i + 1;
        }
        let r = Tensor { data, rows: self.rows, cols: self.cols };
        proof {
            assert(r@ =~= tv_rms_norm(self@, eps as int));
        }
        r
    }

    /// The transpose, `[cols, rows]` with `result[j, i] == self[i, j]`.
    pub fn transpose(&self) -> (r: Tensor)
        requires
            self@.wf(),
        ensures
            r@ == tv_transpose(self@),
            r@.wf(),
    {
        let n = self.data.len();
        let mut data: Vec<i64> = Vec::new();
        let mut i2: usize = 0;
        proof {
            lemma_mul_is_commutative(self@.rows, self@.cols);
        }
        while i2 < self.cols
            invariant
                i2 <= self@.cols,
                self@.wf(),
                n == self@.data.len(),
                self@.cols * self@.rows == self@.rows * self@.cols,
                data@.len() == i2 * self@.rows,
                forall|q: int|
                    0 <= q < data@.len() ==> data@[q] as int == tv_transpose(self@).data[q],
            decreases self@.cols - i2,
        {
            let mut j2: usize = 0;
            while j2 < self.rows
                invariant
                    i2 < self@.cols,
                    j2 <= self@.rows,
                    self@.wf(),
                    n == self@.data.len(),
                    self@.cols * self@.rows == self@.rows * self@.cols,
                    data@.len() == i2 * self@.rows + j2,
                    forall|q: int|
                        0 <= q < data@.len() ==> data@[q] as int == tv_transpose(self@).data[q],
                decreases self@.rows - j2,
            {
                proof {
                    lemma_rm_index(i2 as int, j2 as int, self@.cols, self@.rows);
                    lemma_rm_div(i2 as int, j2 as int, self@.rows);
                }
                let v = self.get(j2, i2);
                data.push(v);
                j2 = j2 + 1;
            }
            proof {
                vstd::arithmetic::mul::lemma_mul_is_distributive_add_other_way(
                    self@.rows,
                    i2 as int,
                    1,
                );
            }
            i2 = i2 + 1;
        }
        let r = Tensor { data, rows: self.cols, cols: self.rows };
        proof {
            assert(r@.data.len() == tv_transpose(self@).data.len());
            assert(r@ =~= tv_transpose(self@));
        }
        r
    }

    /// Dense matrix product `self @ other`; `self.cols` must equal
    /// `other.rows`, and the result has shape `[self.rows, other.cols]`.
    pub fn matmul(&self, other: &Tensor) -> (r: Tensor)
        requires
            self@.wf(),
            other@.wf(),
            self@.cols == other@.rows,
        ensures
            r@ == tv_matmul(self@, other@),
            r@.wf(),
    {
        let m = self.rows;
        let n = other.cols;
        let kk = self.cols;
        let mut data: Vec<i64> = Vec::new();
        let mut i: usize = 0;
        while i < m
            invariant
                i <= m,
                self@.wf(),
                other@.wf(),
                self@.cols == other@.rows,
                m == self@.rows,
                n == other@.cols,
                kk == self@.cols,
                data@.len() == i * (n as int),
                forall|q: int|
                    0 <= q < data@.len() ==> data@[q] as int == tv_matmul(self@, other@).data[q],
            decreases m - i,
        {
            let mut j: usize = 0;
            while j < n
                invariant
                    i < m,
                    j <= n,
                    self@.wf(),
                    other@.wf(),
                    self@.cols == other@.rows,
                    m == self@.rows,
                    n == other@.cols,
                    kk == self@.cols,
                    data@.len() == i * (n as int) + j,
                    forall|q: int|
                        0 <= q < data@.len() ==> data@[q] as int == tv_matmul(
                            self@,
                            other@,
                        ).data[q],
                decreases n - j,
            {
                let mut acc: i64 = 0;
                let mut k: usize = 0;
                while k < kk
                    invariant
                        i < m,
                        j < n,
                        k <= kk,
                        self@.wf(),
                        other@.wf(),
                        self@.cols == other@.rows,
                        m == self@.rows,
                        n == other@.cols,
                        kk == self@.cols,
                        acc as int == mm_entry(self@, other@, i as int, j as int, k as nat),
                    decreases kk - k,
                {
                    let x = self.get(i, k);
                    let y = other.get(k, j);
                    acc = fx_add(acc, fx_mul(x, y));
                    k = k + 1;
                }
                proof {
                    lemma_rm_index(i as int, j as int, m as int, n as int);
                    lemma_rm_div(i as int, j as int, n as int);
                }
                data.push(acc);
                j = j + 1;
            }
            proof {
                vstd::arithmetic::mul::lemma_mul_is_distributive_add_other_way(
                    n as int,
                    i as int,
                    1,
                );
            }
            i = i + 1;
        }
        let r = Tensor { data, rows: m, cols: n };
        proof {
            assert(r@ =~= tv_matmul(self@, other@));
        }
        r
    }

    /// Row-wise softmax, stabilized by subtracting each row's maximum.
    pub fn softmax(&self) -> (r: Tensor)
        requires
            self@.wf(),
        ensures
            r@ == tv_softmax(self@),
            r@.wf(),
    {
        let mut data: Vec<i64> = Vec::new();
        if self.cols == 0 {
            proof {
                assert(self@.rows * self@.cols == 0) by (nonlinear_arith)
                    requires
                        self@.cols == 0,
                ;
            }
            let r = Tensor { data, rows: self.rows, cols: self.cols };
            proof {
                assert(r@ =~= tv_softmax(self@));
            }
            return r;
        }
        let mut i: usize = 0;
        while i < self.rows
            invariant
                i <= self@.rows,
                self@.wf(),
                self@.cols >= 1,
                data@.len() == i * self@.cols,
                forall|q: int|
                    0 <= q < data@.len() ==> data@[q] as int == tv_softmax(self@).data[q],
            decreases self@.rows - i,
        {
            let mut mxv = self.get(i, 0);
            let mut j: usize = 1;
            while j < self.cols
                invariant
                    i < self@.rows,
                    1 <= j <= self@.cols,
                    self@.wf(),
                    mxv as int == row_max(self@, i as int, j as nat),
                decreases self@.cols - j,
            {
                let v = self.get(i, j);
                if v > mxv {
                    mxv = v;
                }
                j = j + 1;
            }
            let ghost mx = row_max(self@, i as int, self@.cols as nat);
            let mut es: Vec<i64> = Vec::new();
            let mut sum: i64 = 0;
            let mut j2: usize = 0;
            while j2 < self.cols
                invariant
                    i < self@.rows,
                    j2 <= self@.cols,
                    self@.wf(),
                    self@.cols >= 1,
                    mxv as int == mx,
                    mx == row_max(self@, i as int, self@.cols as nat),
                    es@.len() == j2,
                    sum as int == row_expsum(self@, i as int, j2 as nat, mx),
                    forall|q: int|
                        0 <= q < j2 ==> es@[q] as int == spec_fx_exp(
                            self@.idx(i as int, q) - mx,
                        ),
                decreases self@.cols - j2,
            {
                let v = self.get(i, j2);
                proof {
                    lemma_row_max_ge(self@, i as int, self@.cols as nat, j2 as int);
                }
                let e = fx_exp_diff(v, mxv);
                es.push(e);
                sum = fx_add(sum, e);
                j2 = j2 + 1;
            }
            let mut j3: usize = 0;
            while j3 < self.cols
                invariant
                    i < self@.rows,
                    j3 <= self@.cols,
                    self@.wf(),
                    self@.cols >= 1,
                    mx == row_max(self@, i as int, self@.cols as nat),
                    es@.len() == self@.cols,
                    sum as int == row_expsum(self@, i as int, self@.cols as nat, mx),
                    forall|q: int|
                        0 <= q < self@.cols ==> es@[q] as int == spec_fx_exp(
                            self@.idx(i as int, q) - mx,
                        ),
                    data@.len() == i * self@.cols + j3,
                    forall|q: int|
                        0 <= q < data@.len() ==> data@[q] as int == tv_softmax(self@).data[q],
                decreases self@.cols - j3,
            {
                let e = es[j3];
                let o = if sum > 0 {
                    fx_div(e, sum)
                } else {
                    0
                };
                proof {
                    lemma_rm_index(i as int, j3 as int, self@.rows, self@.cols);
                    lemma_rm_div(i as int, j3 as int, self@.cols);
                }
                data.push(o);
                j3 = j3 + 1;
            }
            proof {
                vstd::arithmetic::mul::lemma_mul_is_distributive_add_other_way(
                    self@.cols,
                    i as int,
                    1,
                );
            }
            i = i + 1;
        }
        let r = Tensor { data, rows: self.rows, cols: self.cols };
        proof {
            assert(r@ =~= tv_softmax(self@));
        }
        r
    }

    /// Multiply every element by the scalar `s`.
    pub fn scale(&self, s: i64) -> (r: Tensor)
        requires
            self@.wf(),
        ensures
            r@ == tv_scale(self@, s as int),
            r@.wf(),
    {
        let n = self.data.len();
        let mut data: Vec<i64> = Vec::new();
        let mut p: usize = 0;
        while p < n
            invariant
                p <= n,
                n == self@.data.len(),
                self@.wf(),
                data@.len() == p,
                forall|q: int|
                    0 <= q < p ==> data@[q] as int == spec_fx_mul(self@.data[q], s as int),
            decreases n - p,
        {
            data.push(fx_mul(self.data[p], s));
            p = p + 1;
        }
        let r = Tensor { data, rows: self.rows, cols: self.cols };
        proof {
            assert(r@ =~= tv_scale(self@, s as int));
        }
        r
    }
}

} // verus!
