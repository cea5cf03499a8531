//! Network layers: the gated feedforward unit, the reasoning block, and
//! the scaled dot-product attention unit.
//!
//! Each layer owns its weight tensors privately, so no caller can break the
//! shape invariants established at construction; only the `forward`
//! contracts are exposed. Construction draws every weight from an
//! explicitly passed seedable generator, which makes initialization
//! reproducible: the contracts pin each weight tensor to the exact draw.

use vstd::prelude::*;
use vstd::arithmetic::div_mod::{
    lemma_div_is_ordered, lemma_div_pos_is_pos, lemma_fundamental_div_mod,
};
use vstd::arithmetic::mul::{
    lemma_mul_is_commutative, lemma_mul_nonnegative, lemma_mul_upper_bound,
};
use crate::fixed::{fx_div, fx_sqrt, spec_fx_div, spec_isqrt, FX_ONE};
use crate::rng::{spec_state_after, Rng64};
use crate::tensor::{
    tv_add, tv_matmul, tv_mul, tv_randn, tv_rms_norm, tv_scale, tv_silu, tv_slice_cols,
    tv_softmax, tv_transpose, Tensor, TensorView,
};

verus! {

/// Row-wise RMS normalization epsilon (the scalar 1e-5).
pub const FX_RMS_EPS: i64 = 2684;

/// Widest supported layer dimension.
pub const DIM_MAX: usize = 1048576;

/// Widest supported feedforward expansion ratio (the scalar 1024.0).
pub const EXPANSION_MAX: i64 = 274877906944;

/// The intermediate feedforward width for a unit of width `h` and
/// expansion ratio `e`: `floor(e * h * 2/3)` rounded up to a multiple
/// of 256.
pub open spec fn spec_inter_size(e: int, h: int) -> int {
    ((e * h * 2) / (3 * (FX_ONE as int)) + 255) / 256 * 256
}

/// The weight-initialization standard deviation `1 / sqrt(h)`, in fixed
/// point.
pub open spec fn spec_init_std(h: int) -> int {
    spec_fx_div(FX_ONE as int, spec_isqrt(h * (FX_ONE as int) * (FX_ONE as int)))
}

/// The intermediate width, computed exactly as `spec_inter_size` says.
fn inter_size(width: usize, expansion: i64) -> (r: usize)
    requires
        1 <= width <= DIM_MAX,
        0 <= expansion <= EXPANSION_MAX,
    ensures
        r as int == spec_inter_size(expansion as int, width as int),
        r <= 0x80000000,
        r % 256 == 0,
{
    proof {
        lemma_mul_upper_bound(expansion as int, EXPANSION_MAX as int, width as int, DIM_MAX as int);
        lemma_mul_nonnegative(expansion as int, width as int);
        lemma_mul_upper_bound(
            (expansion as int) * (width as int),
            (EXPANSION_MAX as int) * (DIM_MAX as int),
            2,
            2,
        );
        lemma_mul_nonnegative((expansion as int) * (width as int), 2);
        lemma_div_is_ordered(
            (expansion as int) * (width as int) * 2,
            (EXPANSION_MAX as int) * (DIM_MAX as int) * 2,
            3 * (FX_ONE as int),
        );
        lemma_div_pos_is_pos((expansion as int) * (width as int) * 2, 3 * (FX_ONE as int));
    }
    let t: u128 = ((expansion as u128) * (width as u128) * 2) / (3 * (FX_ONE as u128));
    let q: u128 = (t + 255) / 256;
    proof {
        lemma_fundamental_div_mod((t + 255) as int, 256);
        vstd::arithmetic::div_mod::lemma_mod_division_less_than_divisor((t + 255) as int, 256);
        vstd::arithmetic::div_mod::lemma_mod_multiples_basic(q as int, 256);
        lemma_mul_is_commutative(q as int, 256);
    }
    (q * 256) as usize
}

/// The initialization standard deviation, computed exactly as
/// `spec_init_std` says.
pub fn init_std(width: usize) -> (r: i64)
    requires
        1 <= width <= DIM_MAX,
    ensures
        r as int == spec_init_std(width as int),
{
    let wf = (width as i64) * FX_ONE;
    let s = fx_sqrt(wf);
    proof {
        let n = (wf as int) * (FX_ONE as int);
        assert(n >= (FX_ONE as int) * (FX_ONE as int)) by (nonlinear_arith)
            requires
                n == (wf as int) * (FX_ONE as int),
                wf >= FX_ONE,
        ;
        if s == 0 {
            assert((0int + 1) * (0int + 1) == 1);
            assert(false);
        }
    }
    fx_div(FX_ONE, s)
}

/// Mathematical model of a gated feedforward unit.
#[verifier::ext_equal]
pub struct SwiGLUView {
    pub gate_up: TensorView,
    pub down: TensorView,
    pub inter: int,
}

impl SwiGLUView {
    /// Shape invariant for a unit operating on width `width`.
    pub open spec fn wf(self, width: int) -> bool {
        &&& self.gate_up.wf()
        &&& self.down.wf()
        &&& 0 <= self.inter
        &&& self.gate_up.rows == width
        &&& self.gate_up.cols == 2 * self.inter
        &&& self.down.rows == self.inter
        &&& self.down.cols == width
    }
}

/// The unit's two weight tensors fit in addressable memory.
pub open spec fn swiglu_fits(width: int, e: int) -> bool {
    width * (2 * spec_inter_size(e, width)) <= usize::MAX
}

/// A freshly constructed unit: both projections drawn in order from the
/// generator, and the state the generator is left in.
pub open spec fn spec_swiglu_new(width: int, e: int, s: u64) -> (SwiGLUView, u64) {
    let inter = spec_inter_size(e, width);
    let std = spec_init_std(width);
    let gate_up = tv_randn(width, 2 * inter, std, s);
    let s1 = spec_state_after(s, (width * (2 * inter)) as nat);
    let down = tv_randn(inter, width, std, s1);
    let s2 = spec_state_after(s1, (inter * width) as nat);
    (SwiGLUView { gate_up, down, inter }, s2)
}

/// The unit's forward pass: project, split into gate and up halves,
/// gate with SiLU, and project back down.
pub open spec fn swiglu_spec(w: SwiGLUView, x: TensorView) -> TensorView {
    let proj = tv_matmul(x, w.gate_up);
    let gate = tv_slice_cols(proj, 0, w.inter);
    let up = tv_slice_cols(proj, w.inter, w.inter);
    tv_matmul(tv_mul(tv_silu(gate), up), w.down)
}

/// Gated feedforward unit: a combined gate/up projection `[width, 2*inter]`
/// and a down projection `[inter, width]`.
pub struct SwiGLU {
    gate_up: Tensor,
    down: Tensor,
    inter_size: usize,
}

impl View for SwiGLU {
    type V = SwiGLUView;

    closed spec fn view(&self) -> SwiGLUView {
        SwiGLUView {
            gate_up: self.gate_up@,
            down: self.down@,
            inter: self.inter_size as int,
        }
    }
}

impl SwiGLU {
    /// Build a unit of the given width, drawing both projections from the
    /// generator with standard deviation `1/sqrt(width)`.
    pub fn new(width: usize, expansion: i64, rng: &mut Rng64) -> (r: SwiGLU)
        requires
            1 <= width <= DIM_MAX,
            0 <= expansion <= EXPANSION_MAX,
            swiglu_fits(width as int, expansion as int),
        ensures
            r@.wf(width as int),
            r@ == spec_swiglu_new(width as int, expansion as int, old(rng).state).0,
            final(rng).state == spec_swiglu_new(width as int, expansion as int, old(rng).state).1,
    {
        let inter = inter_size(width, expansion);
        proof {
            vstd::arithmetic::mul::lemma_mul_inequality(1, width as int, 2 * (inter as int));
            vstd::arithmetic::mul::lemma_mul_inequality(
                inter as int,
                2 * (inter as int),
                width as int,
            );
            lemma_mul_is_commutative(inter as int, width as int);
            lemma_mul_is_commutative(2 * (inter as int), width as int);
        }
        let std = init_std(width);
        let gate_up = Tensor::randn(width, 2 * inter, std, rng);
        let down = Tensor::randn(inter, width, std, rng);
        SwiGLU { gate_up, down, inter_size: inter }
    }

    /// Forward pass `[rows, width] -> [rows, width]`.
    pub fn forward(&self, x: &Tensor) -> (r: Tensor)
        requires
            x@.wf(),
            self@.wf(x@.cols),
        ensures
            r@ == swiglu_spec(self@, x@),
            r@.wf(),
            r@.rows == x@.rows,
            r@.cols == x@.cols,
    {
        let proj = x.matmul(&self.gate_up);
        let gate = proj.slice_cols(0, self.inter_size);
        let up = proj.slice_cols(self.inter_size, self.inter_size);
        let activated = gate.silu();
        let gated = activated.mul(&up);
        gated.matmul(&self.down)
    }
}

/// Mathematical model of a reasoning block.
#[verifier::ext_equal]
pub struct BlockView {
    pub mlp: SwiGLUView,
    pub mlp_t: Option<SwiGLUView>,
    pub rms_eps: int,
}

impl BlockView {
    /// Shape invariant for a block over `[seq, width]` states.
    pub open spec fn wf(self, width: int, seq: int) -> bool {
        &&& self.mlp.wf(width)
        &&& match self.mlp_t {
            Some(mt) => mt.wf(seq),
            None => true,
        }
        &&& self.rms_eps >= 0
    }
}

/// A freshly constructed block: the main unit, then (for the transpose
/// variant) the transposed unit, drawn in order from the generator.
pub open spec fn spec_block_new(width: int, seq: int, e: int, use_mlp_t: bool, s: u64) -> (
    BlockView,
    u64,
) {
    let m = spec_swiglu_new(width, e, s);
    if use_mlp_t {
        let mt = spec_swiglu_new(seq, e, m.1);
        (BlockView { mlp: m.0, mlp_t: Some(mt.0), rms_eps: FX_RMS_EPS as int }, mt.1)
    } else {
        (BlockView { mlp: m.0, mlp_t: None, rms_eps: FX_RMS_EPS as int }, m.1)
    }
}

/// The block's forward pass: residual injection, the optional transposed
/// feedforward with normalization, then the main feedforward with a
/// residual sum and a final row-wise RMS normalization.
pub open spec fn block_spec(b: BlockView, state: TensorView, inj: TensorView) -> TensorView {
    let x0 = tv_add(state, inj);
    let x = match b.mlp_t {
        Some(mt) => tv_rms_norm(
            tv_add(x0, tv_transpose(swiglu_spec(mt, tv_transpose(x0)))),
            b.rms_eps,
        ),
        None => x0,
    };
    tv_rms_norm(tv_add(x, swiglu_spec(b.mlp, x)), b.rms_eps)
}

/// Reasoning block: one gated feedforward unit, and optionally a second
/// one applied on the transposed representation, fixed at construction.
pub struct ReasoningBlock {
    mlp: SwiGLU,
    mlp_t: Option<SwiGLU>,
    rms_eps: i64,
}

impl View for ReasoningBlock {
    type V = BlockView;

    closed spec fn view(&self) -> BlockView {
        BlockView {
            mlp: self.mlp@,
            mlp_t: match self.mlp_t {
                Some(m) => Some(m@),
                None => None,
            },
            rms_eps: self.rms_eps as int,
        }
    }
}

impl ReasoningBlock {
    /// Build a block for `[seq_dim, width]` states. The transposed unit,
    /// when selected, operates on rows of length `seq_dim`.
    pub fn new(
        width: usize,
        seq_dim: usize,
        expansion: i64,
        use_mlp_t: bool,
        rng: &mut Rng64,
    ) -> (r: ReasoningBlock)
        requires
            1 <= width <= DIM_MAX,
            1 <= seq_dim <= DIM_MAX,
            0 <= expansion <= EXPANSION_MAX,
            swiglu_fits(width as int, expansion as int),
            swiglu_fits(seq_dim as int, expansion as int),
        ensures
            r@.wf(width as int, seq_dim as int),
            r@ == spec_block_new(
                width as int,
                seq_dim as int,
                expansion as int,
                use_mlp_t,
                old(rng).state,
            ).0,
            final(rng).state == spec_block_new(
                width as int,
                seq_dim as int,
                expansion as int,
                use_mlp_t,
                old(rng).state,
            ).1,
    {
        let mlp = SwiGLU::new(width, expansion, rng);
        let mlp_t = if use_mlp_t {
            Some(SwiGLU::new(seq_dim, expansion, rng))
        } else {
            None
        };
        ReasoningBlock { mlp, mlp_t, rms_eps: FX_RMS_EPS }
    }

    /// Forward pass over a `[seq, width]` state with a `[seq, width]`
    /// injection.
    pub fn forward(&self, state: &Tensor, injection: &Tensor) -> (r: Tensor)
        requires
            state@.wf(),
            injection@.wf(),
            state@.rows == injection@.rows,
            state@.cols == injection@.cols,
            self@.wf(state@.cols, state@.rows),
        ensures
            r@ == block_spec(self@, state@, injection@),
            r@.wf(),
            r@.rows == state@.rows,
            r@.cols == state@.cols,
    {
        let mut x = state.add(injection);
        match &self.mlp_t {
            Some(mlp_t) => {
                let x_t = x.transpose();
                let out_t = mlp_t.forward(&x_t);
                let out = out_t.transpose();
                x = x.add(&out).rms_norm(self.rms_eps);
            },
            None => {},
        }
        let out = self.mlp.forward(&x);
        x.add(&out).rms_norm(self.rms_eps)
    }
}

/// Mathematical model of an attention unit.
#[verifier::ext_equal]
pub struct AttentionView {
    pub qkv: TensorView,
    pub o: TensorView,
    pub num_heads: int,
    pub head_dim: int,
}

impl AttentionView {
    /// Shape invariant for a unit operating on width `width`.
    pub open spec fn wf(self, width: int) -> bool {
        &&& self.qkv.wf()
        &&& self.o.wf()
        &&& self.qkv.rows == width
        &&& self.qkv.cols == 3 * width
        &&& self.o.rows == width
        &&& self.o.cols == width
        &&& 1 <= self.head_dim <= DIM_MAX as int
    }
}

/// A freshly constructed attention unit: the combined query/key/value
/// projection, then the output projection, drawn in order.
pub open spec fn spec_attention_new(width: int, heads: int, s: u64) -> (AttentionView, u64) {
    let std = spec_init_std(width);
    let qkv = tv_randn(width, 3 * width, std, s);
    let s1 = spec_state_after(s, (width * (3 * width)) as nat);
    let o = tv_randn(width, width, std, s1);
    let s2 = spec_state_after(s1, (width * width) as nat);
    (AttentionView { qkv, o, num_heads: heads, head_dim: width / heads }, s2)
}

/// Scaled dot-product self-attention over the full hidden width: project
/// to queries, keys and values by column-slicing one product, score as
/// `Q * K^T / sqrt(head_dim)`, soften row-wise, weight the values, and
/// project out.
pub open spec fn attention_spec(at: AttentionView, x: TensorView) -> TensorView {
    let qkv = tv_matmul(x, at.qkv);
    let q = tv_slice_cols(qkv, 0, x.cols);
    let k = tv_slice_cols(qkv, x.cols, x.cols);
    let v = tv_slice_cols(qkv, 2 * x.cols, x.cols);
    let scale = spec_init_std(at.head_dim);
    let scores = tv_softmax(tv_scale(tv_matmul(q, tv_transpose(k)), scale));
    tv_matmul(tv_matmul(scores, v), at.o)
}

/// Self-attention unit: a combined query/key/value projection
/// `[width, 3*width]` and an output projection `[width, width]`. The
/// forward pass scores over the full hidden width rather than splitting
/// per head, exactly as constructed; the head count only sets the score
/// scale `1/sqrt(head_dim)`.
pub struct Attention {
    qkv_proj: Tensor,
    o_proj: Tensor,
    num_heads: usize,
    head_dim: usize,
}

impl View for Attention {
    type V = AttentionView;

    closed spec fn view(&self) -> AttentionView {
        AttentionView {
            qkv: self.qkv_proj@,
            o: self.o_proj@,
            num_heads: self.num_heads as int,
            head_dim: self.head_dim as int,
        }
    }
}

impl Attention {
    /// Build a unit of the given width and head count.
    pub fn new(hidden_size: usize, num_heads: usize, rng: &mut Rng64) -> (r: Attention)
        requires
            1 <= hidden_size <= DIM_MAX,
            1 <= num_heads <= hidden_size,
            hidden_size * (3 * hidden_size) <= usize::MAX,
        ensures
            r@.wf(hidden_size as int),
            r@ == spec_attention_new(hidden_size as int, num_heads as int, old(rng).state).0,
            final(rng).state == spec_attention_new(
                hidden_size as int,
                num_heads as int,
                old(rng).state,
            ).1,
    {
        let head_dim = hidden_size / num_heads;
        let std = init_std(hidden_size);
        proof {
            vstd::arithmetic::mul::lemma_mul_inequality(
                hidden_size as int,
                3 * (hidden_size as int),
                hidden_size as int,
            );
            lemma_mul_is_commutative(hidden_size as int, 3 * (hidden_size as int));
            vstd::arithmetic::div_mod::lemma_div_non_zero(hidden_size as int, num_heads as int);
            vstd::arithmetic::div_mod::lemma_div_is_ordered_by_denominator(
                hidden_size as int,
                1,
                num_heads as int,
            );
        }
        let qkv_proj = Tensor::randn(hidden_size, 3 * hidden_size, std, rng);
        let o_proj = Tensor::randn(hidden_size, hidden_size, std, rng);
        Attention { qkv_proj, o_proj, num_heads, head_dim }
    }

    /// Forward pass `[seq, width] -> [seq, width]`.
    pub fn forward(&self, x: &Tensor) -> (r: Tensor)
        requires
            x@.wf(),
            1 <= x@.cols <= DIM_MAX,
            self@.wf(x@.cols),
        ensures
            r@ == attention_spec(self@, x@),
            r@.wf(),
            r@.rows == x@.rows,
            r@.cols == x@.cols,
    {
        let hidden_size = x.cols();
        let qkv = x.matmul(&self.qkv_proj);
        let q = qkv.slice_cols(0, hidden_size);
        let k = qkv.slice_cols(hidden_size, hidden_size);
        let v = qkv.slice_cols(2 * hidden_size, hidden_size);
        let scale = init_std(self.head_dim);
        let k_t = k.transpose();
        let scores = q.matmul(&k_t).scale(scale);
        let attn_weights = scores.softmax();
        let attn_output = attn_weights.matmul(&v);
        attn_output.matmul(&self.o_proj)
    }
}

} // verus!
