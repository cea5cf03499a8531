//! The recursive reasoning controller and its grid utilities.
//!
//! The controller owns two persistent latent matrices, the H-state and the
//! L-state, and drives them through nested iteration: `l_cycles` inner
//! updates of the L-state per outer update of the H-state, `h_cycles`
//! outer updates in all. The final H-state is projected through the output
//! head and arg-max decoded into tokens. Every update is a pure function
//! of the weights and the input, stated exactly by the spec functions
//! below, so inference is reproducible given a seed.

use vstd::prelude::*;
use vstd::arithmetic::div_mod::{
    lemma_fundamental_div_mod, lemma_fundamental_div_mod_converse,
};
use crate::fixed::{
    fx_mul, fx_sigmoid, fx_sqrt, spec_divn, spec_fx_mul, spec_fx_sigmoid, spec_isqrt, FX_ONE,
};
use crate::rng::{entropy_seed, spec_state_after, Rng64};
use crate::layers::{
    spec_block_new, spec_init_std, swiglu_fits, block_spec, BlockView, ReasoningBlock, DIM_MAX,
    EXPANSION_MAX,
};
use crate::tensor::{
    lemma_rm_div, lemma_rm_index, tv_add, tv_matmul, tv_randn, tv_zeros, Tensor, TensorView,
};

verus! {

/// Immutable controller configuration, fixed at construction.
#[derive(Clone, Copy)]
pub struct TRMConfig {
    pub hidden_size: usize,
    pub num_heads: usize,
    pub expansion: i64,
    pub h_cycles: usize,
    pub l_cycles: usize,
    pub l_layers: usize,
    pub vocab_size: usize,
    pub seq_len: usize,
    pub use_mlp_t: bool,
}

/// Evaluate the intermediate width for one concrete preset.
proof fn lemma_preset_inter(e: int, h: int, expected: int)
    by (nonlinear_arith)
    requires
        ((e * h * 2) / (3 * 268435456int) + 255) / 256 * 256 == expected,
    ensures
        crate::layers::spec_inter_size(e, h) == expected,
{
}

impl TRMConfig {
    /// A usable configuration: every dimension positive and moderate, the
    /// vocabulary small enough to decode into bytes, and every derived
    /// weight tensor small enough to address.
    pub open spec fn wf(self) -> bool {
        &&& 1 <= self.hidden_size <= DIM_MAX
        &&& 1 <= self.num_heads <= self.hidden_size
        &&& 0 <= self.expansion <= EXPANSION_MAX
        &&& self.h_cycles <= DIM_MAX
        &&& 1 <= self.l_cycles <= DIM_MAX
        &&& 1 <= self.l_layers <= DIM_MAX
        &&& 2 <= self.vocab_size <= 256
        &&& 1 <= self.seq_len <= DIM_MAX
        &&& swiglu_fits(self.hidden_size as int, self.expansion as int)
        &&& swiglu_fits(self.seq_len as int, self.expansion as int)
        &&& self.seq_len * self.hidden_size <= usize::MAX
        &&& self.vocab_size * self.hidden_size <= usize::MAX
        &&& self.seq_len * self.vocab_size <= usize::MAX
        &&& self.h_cycles * (self.l_cycles + 1) <= usize::MAX
    }

    /// The default configuration: a 9x9 grid model with the transposed
    /// feedforward variant.
    pub fn new() -> (r: TRMConfig)
        ensures
            r.wf(),
            r.hidden_size == 256,
            r.num_heads == 8,
            r.expansion == 4 * FX_ONE,
            r.h_cycles == 3,
            r.l_cycles == 6,
            r.l_layers == 2,
            r.vocab_size == 12,
            r.seq_len == 81,
            r.use_mlp_t == true,
    {
        proof {
            assert(((1073741824int * 256 * 2) / (3 * 268435456int) + 255) / 256 * 256 == 768)
                by (nonlinear_arith);
            assert(((1073741824int * 81 * 2) / (3 * 268435456int) + 255) / 256 * 256 == 256)
                by (nonlinear_arith);
            lemma_preset_inter(1073741824int, 256, 768);
            lemma_preset_inter(1073741824int, 81, 256);
        }
        TRMConfig {
            hidden_size: 256,
            num_heads: 8,
            expansion: 4 * FX_ONE,
            h_cycles: 3,
            l_cycles: 6,
            l_layers: 2,
            vocab_size: 12,
            seq_len: 81,
            use_mlp_t: true,
        }
    }

    /// A lighter preset for 9x9 puzzle grids.
    pub fn for_sudoku() -> (r: TRMConfig)
        ensures
            r.wf(),
            r.hidden_size == 128,
            r.num_heads == 4,
            r.expansion == 2 * FX_ONE,
            r.h_cycles == 3,
            r.l_cycles == 6,
            r.l_layers == 2,
            r.vocab_size == 12,
            r.seq_len == 81,
            r.use_mlp_t == true,
    {
        proof {
            assert(((536870912int * 128 * 2) / (3 * 268435456int) + 255) / 256 * 256 == 256)
                by (nonlinear_arith);
            assert(((536870912int * 81 * 2) / (3 * 268435456int) + 255) / 256 * 256 == 256)
                by (nonlinear_arith);
            lemma_preset_inter(536870912int, 128, 256);
            lemma_preset_inter(536870912int, 81, 256);
        }
        TRMConfig {
            hidden_size: 128,
            num_heads: 4,
            expansion: 2 * FX_ONE,
            h_cycles: 3,
            l_cycles: 6,
            l_layers: 2,
            vocab_size: 12,
            seq_len: 81,
            use_mlp_t: true,
        }
    }

    /// A preset for 15x15 maze grids.
    pub fn for_maze() -> (r: TRMConfig)
        ensures
            r.wf(),
            r.hidden_size == 128,
            r.num_heads == 4,
            r.expansion == 2 * FX_ONE,
            r.h_cycles == 3,
            r.l_cycles == 4,
            r.l_layers == 2,
            r.vocab_size == 4,
            r.seq_len == 225,
            r.use_mlp_t == true,
    {
        proof {
            assert(((536870912int * 128 * 2) / (3 * 268435456int) + 255) / 256 * 256 == 256)
                by (nonlinear_arith);
            assert(((536870912int * 225 * 2) / (3 * 268435456int) + 255) / 256 * 256 == 512)
                by (nonlinear_arith);
            lemma_preset_inter(536870912int, 128, 256);
            lemma_preset_inter(536870912int, 225, 512);
        }
        TRMConfig {
            hidden_size: 128,
            num_heads: 4,
            expansion: 2 * FX_ONE,
            h_cycles: 3,
            l_cycles: 4,
            l_layers: 2,
            vocab_size: 4,
            seq_len: 225,
            use_mlp_t: true,
        }
    }
}

/// Mathematical model of the controller.
#[verifier::ext_equal]
pub struct TRMView {
    pub config: TRMConfig,
    pub embed_tokens: TensorView,
    pub l_layers: Seq<BlockView>,
    pub lm_head: TensorView,
    pub h_init: TensorView,
    pub l_init: TensorView,
    pub z_h: TensorView,
    pub z_l: TensorView,
    pub current_h: int,
    pub current_l: int,
    pub total_steps: int,
}

impl TRMView {
    /// Controller invariant: configuration usable, every tensor of its
    /// configured shape, and the cycle counters within their ranges.
    pub open spec fn wf(self) -> bool {
        &&& self.config.wf()
        &&& self.embed_tokens.wf()
        &&& self.embed_tokens.rows == self.config.vocab_size
        &&& self.embed_tokens.cols == self.config.hidden_size
        &&& self.lm_head.wf()
        &&& self.lm_head.rows == self.config.hidden_size
        &&& self.lm_head.cols == self.config.vocab_size
        &&& self.h_init.wf()
        &&& self.h_init.rows == 1
        &&& self.h_init.cols == self.config.hidden_size
        &&& self.l_init.wf()
        &&& self.l_init.rows == 1
        &&& self.l_init.cols == self.config.hidden_size
        &&& self.z_h.wf()
        &&& self.z_h.rows == self.config.seq_len
        &&& self.z_h.cols == self.config.hidden_size
        &&& self.z_l.wf()
        &&& self.z_l.rows == self.config.seq_len
        &&& self.z_l.cols == self.config.hidden_size
        &&& self.l_layers.len() == self.config.l_layers
        &&& forall|i: int|
            0 <= i < self.l_layers.len() ==> (#[trigger] self.l_layers[i]).wf(
                self.config.hidden_size as int,
                self.config.seq_len as int,
            )
        &&& 0 <= self.current_l <= self.config.l_cycles
        &&& 0 <= self.current_h <= self.config.h_cycles
        &&& 0 <= self.total_steps
    }

    /// The weight and configuration fields, which no state update touches.
    pub open spec fn same_weights(self, other: TRMView) -> bool {
        &&& self.config == other.config
        &&& self.embed_tokens == other.embed_tokens
        &&& self.l_layers == other.l_layers
        &&& self.lm_head == other.lm_head
        &&& self.h_init == other.h_init
        &&& self.l_init == other.l_init
    }
}

/// A row vector broadcast across `rows` rows.
pub open spec fn tv_broadcast_row(v: TensorView, rows: int) -> TensorView {
    TensorView {
        data: Seq::new((rows * v.cols) as nat, |p: int| v.data[p % v.cols]),
        rows,
        cols: v.cols,
    }
}

/// The reasoning-block stack after construction: `n` blocks drawn in
/// order, and the state the generator is left in.
pub open spec fn spec_layers_new(
    n: nat,
    width: int,
    seq: int,
    e: int,
    use_mlp_t: bool,
    s: u64,
) -> (Seq<BlockView>, u64)
    decreases n,
{
    if n == 0 {
        (Seq::empty(), s)
    } else {
        let prev = spec_layers_new((n - 1) as nat, width, seq, e, use_mlp_t, s);
        let b = spec_block_new(width, seq, e, use_mlp_t, prev.1);
        (prev.0.push(b.0), b.1)
    }
}

/// A freshly constructed controller: embedding table, reasoning blocks,
/// output head and the two initial-state vectors drawn in order from a
/// generator seeded with `seed`, latent states zeroed, counters zeroed.
pub open spec fn spec_trm_new(config: TRMConfig, seed: u64) -> TRMView {
    let h = config.hidden_size as int;
    let std = spec_init_std(h);
    let embed_tokens = tv_randn(config.vocab_size as int, h, std, seed);
    let s1 = spec_state_after(seed, (config.vocab_size * config.hidden_size) as nat);
    let layers = spec_layers_new(
        config.l_layers as nat,
        h,
        config.seq_len as int,
        config.expansion as int,
        config.use_mlp_t,
        s1,
    );
    let lm_head = tv_randn(h, config.vocab_size as int, std, layers.1);
    let s2 = spec_state_after(layers.1, (config.hidden_size * config.vocab_size) as nat);
    let h_init = tv_randn(1, h, FX_ONE as int, s2);
    let s3 = spec_state_after(s2, config.hidden_size as nat);
    let l_init = tv_randn(1, h, FX_ONE as int, s3);
    TRMView {
        config,
        embed_tokens,
        l_layers: layers.0,
        lm_head,
        h_init,
        l_init,
        z_h: tv_zeros(config.seq_len as int, h),
        z_l: tv_zeros(config.seq_len as int, h),
        current_h: 0,
        current_l: 0,
        total_steps: 0,
    }
}

/// The controller after a reset: both latent states broadcast from their
/// learned initial vectors, all counters zero, weights untouched.
pub open spec fn spec_reset(m: TRMView) -> TRMView {
    TRMView {
        z_h: tv_broadcast_row(m.h_init, m.config.seq_len as int),
        z_l: tv_broadcast_row(m.l_init, m.config.seq_len as int),
        current_h: 0,
        current_l: 0,
        total_steps: 0,
        ..m
    }
}

/// Resetting twice is the same as resetting once.
pub proof fn lemma_reset_idempotent(m: TRMView)
    ensures
        spec_reset(spec_reset(m)) == spec_reset(m),
{
    assert(spec_reset(spec_reset(m)) =~= spec_reset(m));
}

/// The input embedding: position `i` looks up row `input[i]` of the
/// embedding table (an out-of-range token contributes zeros), scaled by
/// `sqrt(hidden_size)`.
pub open spec fn spec_embed(m: TRMView, input: Seq<u8>) -> TensorView {
    let h = m.config.hidden_size as int;
    let scale = spec_isqrt(h * (FX_ONE as int) * (FX_ONE as int));
    TensorView {
        data: Seq::new(
            (input.len() * h) as nat,
            |p: int|
                {
                    let tok = input[p / h] as int;
                    if tok < m.config.vocab_size {
                        spec_fx_mul(m.embed_tokens.idx(tok, p % h), scale)
                    } else {
                        0
                    }
                },
        ),
        rows: input.len() as int,
        cols: h,
    }
}

/// Every reasoning block applied in sequence: the state threads through
/// the stack while the same injection feeds every block.
pub open spec fn fold_blocks(
    blocks: Seq<BlockView>,
    state: TensorView,
    inj: TensorView,
    k: nat,
) -> TensorView
    decreases k,
{
    if k == 0 {
        state
    } else {
        block_spec(blocks[k - 1], fold_blocks(blocks, state, inj, (k - 1) as nat), inj)
    }
}

/// One controller step: an inner update of the L-state while inner cycles
/// remain, otherwise an outer update of the H-state while outer cycles
/// remain, otherwise nothing.
pub open spec fn spec_step(m: TRMView, input: Seq<u8>) -> TRMView {
    let emb = spec_embed(m, input);
    let n = m.l_layers.len();
    if m.current_l < m.config.l_cycles {
        TRMView {
            z_l: fold_blocks(m.l_layers, m.z_l, tv_add(m.z_h, emb), n),
            current_l: m.current_l + 1,
            total_steps: m.total_steps + 1,
            ..m
        }
    } else if m.current_h < m.config.h_cycles {
        TRMView {
            z_h: fold_blocks(m.l_layers, m.z_h, m.z_l, n),
            current_h: m.current_h + 1,
            current_l: 0,
            ..m
        }
    } else {
        m
    }
}

/// The controller after `k` steps on a fixed input.
pub open spec fn spec_steps(m: TRMView, input: Seq<u8>, k: nat) -> TRMView
    decreases k,
{
    if k == 0 {
        m
    } else {
        spec_step(spec_steps(m, input, (k - 1) as nat), input)
    }
}

/// Arg-max over the first `k` entries of row `i`, lowest index on ties.
pub open spec fn row_argmax(a: TensorView, i: int, k: nat) -> int
    decreases k,
{
    if k <= 1 {
        0
    } else {
        let prev = row_argmax(a, i, (k - 1) as nat);
        if a.idx(i, k - 1) > a.idx(i, prev) {
            k - 1
        } else {
            prev
        }
    }
}

/// The arg-max index is in range, maximal, and the lowest such index:
/// every earlier entry is strictly smaller, so ties break low.
pub proof fn lemma_row_argmax(a: TensorView, i: int, k: nat)
    requires
        k >= 1,
    ensures
        0 <= row_argmax(a, i, k) < k,
        forall|j: int| 0 <= j < k ==> #[trigger] a.idx(i, j) <= a.idx(i, row_argmax(a, i, k)),
        forall|j: int|
            0 <= j < row_argmax(a, i, k) ==> #[trigger] a.idx(i, j) < a.idx(
                i,
                row_argmax(a, i, k),
            ),
    decreases k,
{
    if k > 1 {
        lemma_row_argmax(a, i, (k - 1) as nat);
    }
}

/// Arg-max over the first `k` scores of a flat vector, lowest index on
/// ties.
pub open spec fn spec_vec_argmax(a: Seq<i64>, k: nat) -> int
    decreases k,
{
    if k <= 1 {
        0
    } else {
        let prev = spec_vec_argmax(a, (k - 1) as nat);
        if a[k - 1] > a[prev] {
            k - 1
        } else {
            prev
        }
    }
}

/// Decode arg-max tie-break: the chosen index is in range and maximal,
/// and every earlier index scores strictly lower, so ties break to the
/// lowest index.
pub proof fn lemma_argmax_lowest(a: Seq<i64>, k: nat)
    requires
        k >= 1,
    ensures
        0 <= spec_vec_argmax(a, k) < k,
        forall|j: int| 0 <= j < k ==> #[trigger] a[j] <= a[spec_vec_argmax(a, k)],
        forall|j: int| 0 <= j < spec_vec_argmax(a, k) ==> #[trigger] a[j] < a[spec_vec_argmax(a, k)],
    decreases k,
{
    if k > 1 {
        lemma_argmax_lowest(a, (k - 1) as nat);
    }
}

/// A flat score vector that mirrors one matrix row, entry for entry,
/// arg-maxes to the same index.
proof fn lemma_row_vec_argmax(a: TensorView, i: int, row: Seq<i64>, k: nat)
    requires
        forall|j: int| 0 <= j < k ==> (#[trigger] row[j]) as int == a.idx(i, j),
    ensures
        spec_vec_argmax(row, k) == row_argmax(a, i, k),
    decreases k,
{
    if k > 1 {
        lemma_row_vec_argmax(a, i, row, (k - 1) as nat);
        lemma_argmax_lowest(row, (k - 1) as nat);
    }
}

/// The index of the largest score, lowest index on ties.
pub fn argmax(scores: &Vec<i64>) -> (r: usize)
    requires
        scores@.len() >= 1,
    ensures
        r as int == spec_vec_argmax(scores@, scores@.len() as nat),
        r < scores@.len(),
{
    let n = scores.len();
    let mut best: usize = 0;
    let mut j: usize = 1;
    while j < n
        invariant
            1 <= j <= n,
            best < j,
            n == scores@.len(),
            best as int == spec_vec_argmax(scores@, j as nat),
        decreases n - j,
    {
        if scores[j] > scores[best] {
            best = j;
        }
        j = j + 1;
    }
    best
}

/// The decoded output: the H-state projected through the output head,
/// then arg-max per position.
pub open spec fn spec_predict(m: TRMView) -> Seq<u8> {
    let logits = tv_matmul(m.z_h, m.lm_head);
    Seq::new(
        m.config.seq_len as nat,
        |i: int| row_argmax(logits, i, m.config.vocab_size as nat) as u8,
    )
}

/// The confidence diagnostic: the mean absolute H-state activation put
/// through the logistic squashing function.
pub open spec fn spec_confidence(m: TRMView) -> int {
    spec_fx_sigmoid(
        spec_divn(
            crate::tensor::tv_abs_sum(m.z_h, m.z_h.data.len()),
            m.z_h.data.len() as int,
        ),
    )
}

/// Stepping never touches the weights or the configuration.
pub proof fn lemma_steps_same_weights(m: TRMView, input: Seq<u8>, k: nat)
    ensures
        spec_steps(m, input, k).same_weights(m),
    decreases k,
{
    if k > 0 {
        lemma_steps_same_weights(m, input, (k - 1) as nat);
    }
}

/// Counter dynamics of the nested schedule: starting from zeroed
/// counters, after `k` of the `h_cycles * (l_cycles + 1)` scheduled steps
/// the outer counter stands at `k / (l_cycles + 1)` and the inner at
/// `k % (l_cycles + 1)`.
pub proof fn lemma_step_counters(m: TRMView, input: Seq<u8>, k: nat)
    requires
        m.current_h == 0,
        m.current_l == 0,
        k <= m.config.h_cycles * (m.config.l_cycles + 1),
    ensures
        spec_steps(m, input, k).config == m.config,
        spec_steps(m, input, k).current_h == k as int / (m.config.l_cycles + 1),
        spec_steps(m, input, k).current_l == k as int % (m.config.l_cycles + 1),
    decreases k,
{
    let ll = m.config.l_cycles as int;
    let hh = m.config.h_cycles as int;
    let l1 = ll + 1;
    if k == 0 {
        lemma_fundamental_div_mod_converse(0, l1, 0, 0);
    } else {
        lemma_step_counters(m, input, (k - 1) as nat);
        let prev = spec_steps(m, input, (k - 1) as nat);
        let ch = (k - 1) as int / l1;
        let cl = (k - 1) as int % l1;
        lemma_fundamental_div_mod((k - 1) as int, l1);
        vstd::arithmetic::div_mod::lemma_mod_division_less_than_divisor((k - 1) as int, l1);
        vstd::arithmetic::div_mod::lemma_div_pos_is_pos((k - 1) as int, l1);
        vstd::arithmetic::mul::lemma_mul_is_commutative(l1, ch);
        if cl < ll {
            // an inner step: the remainder advances within the block
            lemma_fundamental_div_mod_converse(k as int, l1, ch, cl + 1);
        } else {
            // the block's outer step: `k - 1 == ch * l1 + ll`, so `ch < hh`
            assert(ch < hh) by (nonlinear_arith)
                requires
                    (k - 1) as int == ch * l1 + ll,
                    k as int <= hh * l1,
                    0 <= ch,
                    l1 == ll + 1,
                    0 <= ll,
            ;
            vstd::arithmetic::mul::lemma_mul_is_distributive_add_other_way(l1, ch, 1);
            lemma_fundamental_div_mod_converse(k as int, l1, ch + 1, 0);
        }
    }
}

/// Controller termination: from a freshly reset controller, the nested
/// schedule of exactly `h_cycles * (l_cycles + 1)` steps drives the outer
/// counter to `h_cycles`, so the run is complete with the inner counter
/// drained.
pub proof fn lemma_controller_termination(m: TRMView, input: Seq<u8>)
    requires
        m.current_h == 0,
        m.current_l == 0,
    ensures
        spec_steps(
            m,
            input,
            (m.config.h_cycles * (m.config.l_cycles + 1)) as nat,
        ).current_h == m.config.h_cycles,
        spec_steps(m, input, (m.config.h_cycles * (m.config.l_cycles + 1)) as nat).current_l
            == 0,
{
    let ll = m.config.l_cycles as int;
    let hh = m.config.h_cycles as int;
    let l1 = ll + 1;
    let n = (m.config.h_cycles * (m.config.l_cycles + 1)) as nat;
    lemma_step_counters(m, input, n);
    vstd::arithmetic::div_mod::lemma_mod_multiples_basic(hh, l1);
    vstd::arithmetic::mul::lemma_mul_is_commutative(hh, l1);
    vstd::arithmetic::div_mod::lemma_div_multiples_vanish(hh, l1);
}

/// Once the outer iteration is complete, a step never changes the H-state
/// or the decoded output, and once the inner counter has also drained, a
/// step changes nothing at all.
pub proof fn lemma_step_after_complete(m: TRMView, input: Seq<u8>)
    requires
        m.current_h >= m.config.h_cycles,
    ensures
        spec_step(m, input).z_h == m.z_h,
        spec_step(m, input).current_h == m.current_h,
        spec_predict(spec_step(m, input)) == spec_predict(m),
        m.current_l >= m.config.l_cycles ==> spec_step(m, input) == m,
{
    let m2 = spec_step(m, input);
    assert(spec_predict(m2) =~= spec_predict(m));
}

/// Inference is deterministic: a full forward run changes only the latent
/// states and counters, so running it again on the same instance with the
/// same input decodes the identical output.
pub proof fn lemma_forward_deterministic(m: TRMView, input: Seq<u8>)
    ensures
        spec_predict(
            spec_steps(
                spec_reset(
                    spec_steps(
                        spec_reset(m),
                        input,
                        (m.config.h_cycles * (m.config.l_cycles + 1)) as nat,
                    ),
                ),
                input,
                (m.config.h_cycles * (m.config.l_cycles + 1)) as nat,
            ),
        ) == spec_predict(
            spec_steps(
                spec_reset(m),
                input,
                (m.config.h_cycles * (m.config.l_cycles + 1)) as nat,
            ),
        ),
{
    let n = (m.config.h_cycles * (m.config.l_cycles + 1)) as nat;
    let m1 = spec_reset(m);
    let m2 = spec_steps(m1, input, n);
    lemma_steps_same_weights(m1, input, n);
    assert(spec_reset(m2) =~= m1);
}

/// Per-step snapshot for external diagnostics.
pub struct StepInfo {
    pub h_step: usize,
    pub l_step: usize,
    pub total_steps: usize,
    pub confidence: i64,
    pub z_h_activations: Vec<i64>,
    pub z_l_activations: Vec<i64>,
    pub attention_weights: Vec<i64>,
}

impl StepInfo {
    /// Copy of the sampled H-state prefix.
    pub fn get_z_h_activations(&self) -> (r: Vec<i64>)
        ensures
            r@ == self.z_h_activations@,
    {
        let r = self.z_h_activations.clone();
        proof {
            assert(r@ =~= self.z_h_activations@);
        }
        r
    }

    /// Copy of the sampled L-state prefix.
    pub fn get_z_l_activations(&self) -> (r: Vec<i64>)
        ensures
            r@ == self.z_l_activations@,
    {
        let r = self.z_l_activations.clone();
        proof {
            assert(r@ =~= self.z_l_activations@);
        }
        r
    }

    /// Copy of the attention weights (empty in the feedforward variant).
    pub fn get_attention_weights(&self) -> (r: Vec<i64>)
        ensures
            r@ == self.attention_weights@,
    {
        let r = self.attention_weights.clone();
        proof {
            assert(r@ =~= self.attention_weights@);
        }
        r
    }
}

/// The recursive reasoning controller.
pub struct TRM {
    config: TRMConfig,
    embed_tokens: Tensor,
    l_layers: Vec<ReasoningBlock>,
    lm_head: Tensor,
    h_init: Tensor,
    l_init: Tensor,
    z_h: Tensor,
    z_l: Tensor,
    current_h: usize,
    current_l: usize,
    total_steps: usize,
}

impl View for TRM {
    type V = TRMView;

    closed spec fn view(&self) -> TRMView {
        TRMView {
            config: self.config,
            embed_tokens: self.embed_tokens@,
            l_layers: Seq::new(self.l_layers@.len() as nat, |i: int| self.l_layers@[i]@),
            lm_head: self.lm_head@,
            h_init: self.h_init@,
            l_init: self.l_init@,
            z_h: self.z_h@,
            z_l: self.z_l@,
            current_h: self.current_h as int,
            current_l: self.current_l as int,
            total_steps: self.total_steps as int,
        }
    }
}

/// A row vector broadcast across `rows` rows, executably.
fn broadcast_row(v: &Tensor, rows: usize) -> (r: Tensor)
    requires
        v@.wf(),
        v@.rows == 1,
        rows * v@.cols <= usize::MAX,
    ensures
        r@ == tv_broadcast_row(v@, rows as int),
        r@.wf(),
{
    let cols = v.cols();
    let mut data: Vec<i64> = Vec::new();
    let mut i: usize = 0;
    while i < rows
        invariant
            i <= rows,
            v@.wf(),
            v@.rows == 1,
            cols == v@.cols,
            data@.len() == i * (cols as int),
            forall|q: int|
                0 <= q < data@.len() ==> data@[q] as int == tv_broadcast_row(
                    v@,
                    rows as int,
                ).data[q],
        decreases rows - i,
    {
        let mut j: usize = 0;
        while j < cols
            invariant
                i < rows,
                j <= cols,
                v@.wf(),
                v@.rows == 1,
                cols == v@.cols,
                data@.len() == i * (cols as int) + j,
                forall|q: int|
                    0 <= q < data@.len() ==> data@[q] as int == tv_broadcast_row(
                        v@,
                        rows as int,
                    ).data[q],
            decreases cols - j,
        {
            proof {
                lemma_rm_index(i as int, j as int, rows as int, cols as int);
                lemma_rm_div(i as int, j as int, cols as int);
            }
            let x = v.get(0, j);
            data.push(x);
            j = j + 1;
        }
        proof {
            vstd::arithmetic::mul::lemma_mul_is_distributive_add_other_way(
                cols as int,
                i as int,
                1,
            );
        }
        i = i + 1;
    }
    proof {
        vstd::arithmetic::mul::lemma_mul_is_commutative(rows as int, cols as int);
    }
    let ghost gdata = data@;
    let r = Tensor::from_vec(data, rows, cols);
    proof {
        let tv = tv_broadcast_row(v@, rows as int);
        assert forall|p: int| 0 <= p < r@.data.len() implies r@.data[p] == tv.data[p] by {
            assert(r@.data[p] == gdata[p] as int);
        };
        assert(r@ =~= tv);
    }
    r
}

impl TRM {
    /// Build a controller with weights drawn deterministically from the
    /// given seed; the same configuration and seed always yield the same
    /// model.
    pub fn with_seed(config: TRMConfig, seed: u64) -> (r: TRM)
        requires
            config.wf(),
        ensures
            r@ == spec_trm_new(config, seed),
            r@.wf(),
    {
        let mut rng = Rng64::new(seed);
        let hidden_size = config.hidden_size;
        let std = crate::layers::init_std(hidden_size);
        let embed_tokens = Tensor::randn(config.vocab_size, hidden_size, std, &mut rng);
        let ghost s1 = rng.state;
        let mut l_layers: Vec<ReasoningBlock> = Vec::new();
        let mut i: usize = 0;
        while i < config.l_layers
            invariant
                i <= config.l_layers,
                config.wf(),
                hidden_size == config.hidden_size,
                l_layers@.len() == i,
                rng.state == spec_layers_new(
                    i as nat,
                    config.hidden_size as int,
                    config.seq_len as int,
                    config.expansion as int,
                    config.use_mlp_t,
                    s1,
                ).1,
                Seq::new(i as nat, |k: int| l_layers@[k]@) =~= spec_layers_new(
                    i as nat,
                    config.hidden_size as int,
                    config.seq_len as int,
                    config.expansion as int,
                    config.use_mlp_t,
                    s1,
                ).0,
                forall|k: int|
                    0 <= k < i ==> (#[trigger] l_layers@[k]@).wf(
                        config.hidden_size as int,
                        config.seq_len as int,
                    ),
            decreases config.l_layers - i,
        {
            let block = ReasoningBlock::new(
                hidden_size,
                config.seq_len,
                config.expansion,
                config.use_mlp_t,
                &mut rng,
            );
            l_layers.push(block);
            i = i + 1;
            proof {
                assert(Seq::new(i as nat, |k: int| l_layers@[k]@) =~= spec_layers_new(
                    i as nat,
                    config.hidden_size as int,
                    config.seq_len as int,
                    config.expansion as int,
                    config.use_mlp_t,
                    s1,
                ).0);
            }
        }
        proof {
            vstd::arithmetic::mul::lemma_mul_is_commutative(
                config.hidden_size as int,
                config.vocab_size as int,
            );
        }
        let lm_head = Tensor::randn(hidden_size, config.vocab_size, std, &mut rng);
        let h_init = Tensor::randn(1, hidden_size, FX_ONE, &mut rng);
        let l_init = Tensor::randn(1, hidden_size, FX_ONE, &mut rng);
        let z_h = Tensor::zeros(config.seq_len, hidden_size);
        let z_l = Tensor::zeros(config.seq_len, hidden_size);
        let r = TRM {
            config,
            embed_tokens,
            l_layers,
            lm_head,
            h_init,
            l_init,
            z_h,
            z_l,
            current_h: 0,
            current_l: 0,
            total_steps: 0,
        };
        proof {
            assert(r@ =~= spec_trm_new(config, seed));
        }
        r
    }

    /// Build a controller with fresh random weights, seeded from the
    /// process-wide entropy source.
    pub fn new(config: TRMConfig) -> (r: TRM)
        requires
            config.wf(),
        ensures
            exists|seed: u64| r@ == spec_trm_new(config, seed),
            r@.wf(),
    {
        let seed = entropy_seed();
        let r = TRM::with_seed(config, seed);
        proof {
            assert(r@ == spec_trm_new(config, seed));
        }
        r
    }

    /// Reset the latent states to broadcasts of the learned initial
    /// vectors and zero all cycle counters.
    pub fn reset(&mut self)
        requires
            old(self)@.wf(),
        ensures
            final(self)@ == spec_reset(old(self)@),
            final(self)@.wf(),
    {
        let seq_len = self.config.seq_len;
        let zh = broadcast_row(&self.h_init, seq_len);
        let zl = broadcast_row(&self.l_init, seq_len);
        self.z_h = zh;
        self.z_l = zl;
        self.current_h = 0;
        self.current_l = 0;
        self.total_steps = 0;
        proof {
            assert(self@ =~= spec_reset(old(self)@));
        }
    }

    /// Whether the outer iteration has run to completion.
    pub fn is_complete(&self) -> (r: bool)
        ensures
            r == (self@.current_h >= self@.config.h_cycles),
    {
        self.current_h >= self.config.h_cycles
    }

    /// Flat read-only copy of the H-state.
    pub fn get_z_h(&self) -> (r: Vec<i64>)
        ensures
            r@.len() == self@.z_h.data.len(),
            forall|p: int| 0 <= p < r@.len() ==> r@[p] as int == self@.z_h.data[p],
    {
        self.z_h.to_flat_vec()
    }

    /// Flat read-only copy of the L-state.
    pub fn get_z_l(&self) -> (r: Vec<i64>)
        ensures
            r@.len() == self@.z_l.data.len(),
            forall|p: int| 0 <= p < r@.len() ==> r@[p] as int == self@.z_l.data[p],
    {
        self.z_l.to_flat_vec()
    }

    /// The input embedding of a token sequence.
    fn embed_input(&self, input: &Vec<u8>) -> (r: Tensor)
        requires
            self@.wf(),
            input@.len() * self@.config.hidden_size <= usize::MAX,
        ensures
            r@ == spec_embed(self@, input@),
            r@.wf(),
            r@.rows == input@.len(),
            r@.cols == self@.config.hidden_size,
    {
        let hidden = self.config.hidden_size;
        let vocab = self.config.vocab_size;
        let scale = fx_sqrt((hidden as i64) * FX_ONE);
        let n = input.len();
        let mut data: Vec<i64> = Vec::new();
        let mut i: usize = 0;
        while i < n
            invariant
                i <= n,
                self@.wf(),
                n == input@.len(),
                n * (hidden as int) <= usize::MAX,
                hidden == self@.config.hidden_size,
                vocab == self@.config.vocab_size,
                scale as int == spec_isqrt(
                    (hidden as int) * (FX_ONE as int) * (FX_ONE as int),
                ),
                data@.len() == i * (hidden as int),
                forall|q: int|
                    0 <= q < data@.len() ==> data@[q] as int == spec_embed(
                        self@,
                        input@,
                    ).data[q],
            decreases n - i,
        {
            let tok = input[i] as usize;
            let mut j: usize = 0;
            while j < hidden
                invariant
                    i < n,
                    j <= hidden,
                    self@.wf(),
                    n == input@.len(),
                    n * (hidden as int) <= usize::MAX,
                    hidden == self@.config.hidden_size,
                    vocab == self@.config.vocab_size,
                    tok == input@[i as int] as usize,
                    scale as int == spec_isqrt(
                        (hidden as int) * (FX_ONE as int) * (FX_ONE as int),
                    ),
                    data@.len() == i * (hidden as int) + j,
                    forall|q: int|
                        0 <= q < data@.len() ==> data@[q] as int == spec_embed(
                            self@,
                            input@,
                        ).data[q],
                decreases hidden - j,
            {
                proof {
                    lemma_rm_index(i as int, j as int, n as int, hidden as int);
                    lemma_rm_div(i as int, j as int, hidden as int);
                }
                let v = if tok < vocab {
                    fx_mul(self.embed_tokens.get(tok, j), scale)
                } else {
                    0
                };
                data.push(v);
                j = j + 1;
            }
            proof {
                vstd::arithmetic::mul::lemma_mul_is_distributive_add_other_way(
                    hidden as int,
                    i as int,
                    1,
                );
            }
            i = i + 1;
        }
        let ghost gdata = data@;
        let r = Tensor::from_vec(data, n, hidden);
        proof {
            let tv = spec_embed(self@, input@);
            assert forall|p: int| 0 <= p < r@.data.len() implies r@.data[p] == tv.data[p] by {
                assert(r@.data[p] == gdata[p] as int);
            };
            assert(r@ =~= tv);
        }
        r
    }

    /// Advance the state machine by one step.
    fn advance(&mut self, input: &Vec<u8>)
        requires
            old(self)@.wf(),
            input@.len() == old(self)@.config.seq_len,
            old(self)@.total_steps < usize::MAX,
        ensures
            final(self)@ == spec_step(old(self)@, input@),
            final(self)@.wf(),
    {
        let input_embed = self.embed_input(input);
        if self.current_l < self.config.l_cycles {
            let combined = self.z_h.add(&input_embed);
            let nlayers = self.l_layers.len();
            let mut k: usize = 0;
            while k < nlayers
                invariant
                    k <= nlayers,
                    old(self)@.wf(),
                    nlayers == old(self)@.l_layers.len(),
                    combined@.wf(),
                    combined@.rows == old(self)@.config.seq_len,
                    combined@.cols == old(self)@.config.hidden_size,
                    self@.config == old(self)@.config,
                    self@.embed_tokens == old(self)@.embed_tokens,
                    self@.l_layers == old(self)@.l_layers,
                    self@.lm_head == old(self)@.lm_head,
                    self@.h_init == old(self)@.h_init,
                    self@.l_init == old(self)@.l_init,
                    self@.z_h == old(self)@.z_h,
                    self@.current_h == old(self)@.current_h,
                    self@.current_l == old(self)@.current_l,
                    self@.total_steps == old(self)@.total_steps,
                    self@.z_l.wf(),
                    self@.z_l.rows == old(self)@.config.seq_len,
                    self@.z_l.cols == old(self)@.config.hidden_size,
                    self@.z_l == fold_blocks(
                        old(self)@.l_layers,
                        old(self)@.z_l,
                        combined@,
                        k as nat,
                    ),
                decreases nlayers - k,
            {
                proof {
                    assert((#[trigger] old(self)@.l_layers[k as int]).wf(
                        old(self)@.config.hidden_size as int,
                        old(self)@.config.seq_len as int,
                    ));
                    assert(self.l_layers@[k as int]@ == self@.l_layers[k as int]);
                }
                let nz = self.l_layers[k].forward(&self.z_l, &combined);
                self.z_l = nz;
                k = k + 1;
            }
            self.current_l = self.current_l + 1;
            self.total_steps = self.total_steps + 1;
            proof {
                assert(self@ =~= spec_step(old(self)@, input@));
            }
        } else if self.current_h < self.config.h_cycles {
            let nlayers = self.l_layers.len();
            let ghost inj = self@.z_l;
            let mut k: usize = 0;
            while k < nlayers
                invariant
                    k <= nlayers,
                    old(self)@.wf(),
                    nlayers == old(self)@.l_layers.len(),
                    self@.config == old(self)@.config,
                    self@.embed_tokens == old(self)@.embed_tokens,
                    self@.l_layers == old(self)@.l_layers,
                    self@.lm_head == old(self)@.lm_head,
                    self@.h_init == old(self)@.h_init,
                    self@.l_init == old(self)@.l_init,
                    self@.z_l == old(self)@.z_l,
                    self@.current_h == old(self)@.current_h,
                    self@.current_l == old(self)@.current_l,
                    self@.total_steps == old(self)@.total_steps,
                    self@.z_h.wf(),
                    self@.z_h.rows == old(self)@.config.seq_len,
                    self@.z_h.cols == old(self)@.config.hidden_size,
                    self@.z_h == fold_blocks(
                        old(self)@.l_layers,
                        old(self)@.z_h,
                        old(self)@.z_l,
                        k as nat,
                    ),
                decreases nlayers - k,
            {
                proof {
                    assert((#[trigger] old(self)@.l_layers[k as int]).wf(
                        old(self)@.config.hidden_size as int,
                        old(self)@.config.seq_len as int,
                    ));
                    assert(self.l_layers@[k as int]@ == self@.l_layers[k as int]);
                }
                let nz = self.l_layers[k].forward(&self.z_h, &self.z_l);
                self.z_h = nz;
                k = k + 1;
            }
            self.current_h = self.current_h + 1;
            self.current_l = 0;
            proof {
                assert(self@ =~= spec_step(old(self)@, input@));
            }
        } else {
            proof {
                assert(self@ =~= spec_step(old(self)@, input@));
            }
        }
    }

    /// The confidence diagnostic of the current H-state.
    fn compute_confidence(&self) -> (r: i64)
        requires
            self@.wf(),
        ensures
            r as int == spec_confidence(self@),
    {
        proof {
            assert(self@.z_h.data.len() >= 1) by (nonlinear_arith)
                requires
                    self@.z_h.data.len() == self@.z_h.rows * self@.z_h.cols,
                    self@.z_h.rows >= 1,
                    self@.z_h.cols >= 1,
            ;
        }
        let m = self.z_h.mean_abs();
        fx_sigmoid(m)
    }

    /// Run one reasoning step and report a diagnostic snapshot: the cycle
    /// counters, the confidence, and prefixes of both latent states
    /// (capped at 64 elements).
    pub fn step(&mut self, input: &Vec<u8>) -> (r: StepInfo)
        requires
            old(self)@.wf(),
            input@.len() == old(self)@.config.seq_len,
            old(self)@.total_steps < usize::MAX,
        ensures
            final(self)@ == spec_step(old(self)@, input@),
            final(self)@.wf(),
            r.h_step as int == final(self)@.current_h,
            r.l_step as int == final(self)@.current_l,
            r.total_steps as int == final(self)@.total_steps,
            r.confidence as int == spec_confidence(final(self)@),
            r.z_h_activations@.len() == if 64 <= final(self)@.config.hidden_size {
                64int
            } else {
                final(self)@.config.hidden_size as int
            },
            forall|p: int|
                0 <= p < r.z_h_activations@.len() ==> r.z_h_activations@[p] as int
                    == final(self)@.z_h.data[p],
            r.z_l_activations@.len() == r.z_h_activations@.len(),
            forall|p: int|
                0 <= p < r.z_l_activations@.len() ==> r.z_l_activations@[p] as int
                    == final(self)@.z_l.data[p],
            r.attention_weights@.len() == 0,
    {
        self.advance(input);
        let confidence = self.compute_confidence();
        let sample_size = if 64 <= self.config.hidden_size {
            64
        } else {
            self.config.hidden_size
        };
        proof {
            assert(sample_size <= self@.z_h.data.len()) by (nonlinear_arith)
                requires
                    self@.z_h.data.len() == self@.z_h.rows * self@.z_h.cols,
                    self@.z_h.rows >= 1,
                    sample_size <= self@.z_h.cols,
            ;
            assert(sample_size <= self@.z_l.data.len()) by (nonlinear_arith)
                requires
                    self@.z_l.data.len() == self@.z_l.rows * self@.z_l.cols,
                    self@.z_l.rows >= 1,
                    sample_size <= self@.z_l.cols,
            ;
        }
        let z_h_sample = self.z_h.flat_prefix(sample_size);
        let z_l_sample = self.z_l.flat_prefix(sample_size);
        StepInfo {
            h_step: self.current_h,
            l_step: self.current_l,
            total_steps: self.total_steps,
            confidence,
            z_h_activations: z_h_sample,
            z_l_activations: z_l_sample,
            attention_weights: Vec::new(),
        }
    }

    /// Decode the current H-state into output tokens without advancing.
    fn predict_output(&self) -> (r: Vec<u8>)
        requires
            self@.wf(),
        ensures
            r@ == spec_predict(self@),
    {
        let logits = self.z_h.matmul(&self.lm_head);
        let seq_len = self.config.seq_len;
        let vocab = self.config.vocab_size;
        let mut out: Vec<u8> = Vec::new();
        let mut i: usize = 0;
        while i < seq_len
            invariant
                i <= seq_len,
                self@.wf(),
                seq_len == self@.config.seq_len,
                vocab == self@.config.vocab_size,
                logits@ == tv_matmul(self@.z_h, self@.lm_head),
                logits@.wf(),
                logits@.rows == seq_len,
                logits@.cols == vocab,
                out@.len() == i,
                forall|q: int| 0 <= q < i ==> out@[q] == spec_predict(self@)[q],
            decreases seq_len - i,
        {
            let row = logits.row(i);
            let best = argmax(&row);
            proof {
                lemma_row_vec_argmax(logits@, i as int, row@, vocab as nat);
            }
            out.push(best as u8);
            i = i + 1;
        }
        proof {
            assert(out@ =~= spec_predict(self@));
        }
        out
    }

    /// Decode the current H-state into output tokens.
    pub fn get_current_output(&self) -> (r: Vec<u8>)
        requires
            self@.wf(),
        ensures
            r@ == spec_predict(self@),
    {
        self.predict_output()
    }

    /// Run full inference from a fresh reset: `l_cycles` inner updates
    /// then one outer update, `h_cycles` times over, and decode the final
    /// H-state.
    pub fn forward(&mut self, input: &Vec<u8>) -> (r: Vec<u8>)
        requires
            old(self)@.wf(),
            input@.len() == old(self)@.config.seq_len,
        ensures
            final(self)@ == spec_steps(
                spec_reset(old(self)@),
                input@,
                (old(self)@.config.h_cycles * (old(self)@.config.l_cycles + 1)) as nat,
            ),
            final(self)@.wf(),
            r@ == spec_predict(final(self)@),
    {
        self.reset();
        let ghost m1 = self@;
        let h_cycles = self.config.h_cycles;
        let l_cycles = self.config.l_cycles;
        let ghost steps_total = (h_cycles as int) * ((l_cycles as int) + 1);
        let mut hc: usize = 0;
        let ghost mut k: int = 0;
        while hc < h_cycles
            invariant
                hc <= h_cycles,
                m1.wf(),
                input@.len() == m1.config.seq_len,
                h_cycles == m1.config.h_cycles,
                l_cycles == m1.config.l_cycles,
                steps_total == (h_cycles as int) * ((l_cycles as int) + 1),
                steps_total <= usize::MAX,
                k == (hc as int) * ((l_cycles as int) + 1),
                0 <= k,
                self@ == spec_steps(m1, input@, k as nat),
                self@.wf(),
                self@.config == m1.config,
                self@.total_steps <= k,
            decreases h_cycles - hc,
        {
            let mut lc: usize = 0;
            while lc < l_cycles
                invariant
                    hc < h_cycles,
                    lc <= l_cycles,
                    m1.wf(),
                    input@.len() == m1.config.seq_len,
                    h_cycles == m1.config.h_cycles,
                    l_cycles == m1.config.l_cycles,
                    steps_total == (h_cycles as int) * ((l_cycles as int) + 1),
                    steps_total <= usize::MAX,
                    k == (hc as int) * ((l_cycles as int) + 1) + lc,
                    0 <= k,
                    self@ == spec_steps(m1, input@, k as nat),
                    self@.wf(),
                    self@.config == m1.config,
                    self@.total_steps <= k,
                decreases l_cycles - lc,
            {
                proof {
                    assert(k < steps_total) by (nonlinear_arith)
                        requires
                            k == (hc as int) * ((l_cycles as int) + 1) + lc,
                            steps_total == (h_cycles as int) * ((l_cycles as int) + 1),
                            hc < h_cycles,
                            lc < l_cycles,
                            0 <= hc,
                            0 <= lc,
                    ;
                }
                self.advance(input);
                proof {
                    k = k + 1;
                }
                lc = lc + 1;
            }
            proof {
                assert(k < steps_total) by (nonlinear_arith)
                    requires
                        k == (hc as int) * ((l_cycles as int) + 1) + (l_cycles as int),
                        steps_total == (h_cycles as int) * ((l_cycles as int) + 1),
                        hc < h_cycles,
                        0 <= hc,
                        0 <= l_cycles,
                ;
            }
            self.advance(input);
            proof {
                k = k + 1;
                assert(k == ((hc as int) + 1) * ((l_cycles as int) + 1)) by (nonlinear_arith)
                    requires
                        k == (hc as int) * ((l_cycles as int) + 1) + (l_cycles as int) + 1,
                ;
            }
            hc = hc + 1;
        }
        self.predict_output()
    }
}

/// Build a flat 81-cell puzzle input from a grid, truncating extra cells
/// and zero-filling missing ones.
pub fn create_sudoku_input(grid: &Vec<u8>) -> (r: Vec<u8>)
    ensures
        r@.len() == 81,
        forall|i: int|
            0 <= i < 81 ==> r@[i] == if i < grid@.len() {
                grid@[i]
            } else {
                0u8
            },
{
    let mut input: Vec<u8> = Vec::new();
    let mut i: usize = 0;
    while i < 81
        invariant
            i <= 81,
            input@.len() == i,
            forall|q: int|
                0 <= q < i ==> input@[q] == if q < grid@.len() {
                    grid@[q]
                } else {
                    0u8
                },
        decreases 81 - i,
    {
        if i < grid.len() {
            let v = grid[i];
            input.push(v);
        } else {
            input.push(0);
        }
        i = i + 1;
    }
    input
}

/// Build a flat `width * height` maze input from a grid, truncating extra
/// cells and zero-filling missing ones.
pub fn create_maze_input(grid: &Vec<u8>, width: usize, height: usize) -> (r: Vec<u8>)
    requires
        width * height <= usize::MAX,
    ensures
        r@.len() == width * height,
        forall|i: int|
            0 <= i < r@.len() ==> r@[i] == if i < grid@.len() {
                grid@[i]
            } else {
                0u8
            },
{
    let n = width * height;
    let mut input: Vec<u8> = Vec::new();
    let mut i: usize = 0;
    while i < n
        invariant
            i <= n,
            input@.len() == i,
            forall|q: int|
                0 <= q < i ==> input@[q] == if q < grid@.len() {
                    grid@[q]
                } else {
                    0u8
                },
        decreases n - i,
    {
        if i < grid.len() {
            let v = grid[i];
            input.push(v);
        } else {
            input.push(0);
        }
        i = i + 1;
    }
    input
}

/// Smallest scalar among the first `k` elements (`k >= 1`).
pub open spec fn spec_vec_min(a: Seq<i64>, k: nat) -> int
    decreases k,
{
    if k <= 1 {
        a[0] as int
    } else {
        let m = spec_vec_min(a, (k - 1) as nat);
        if (a[k - 1] as int) < m {
            a[k - 1] as int
        } else {
            m
        }
    }
}

/// Largest scalar among the first `k` elements (`k >= 1`).
pub open spec fn spec_vec_max(a: Seq<i64>, k: nat) -> int
    decreases k,
{
    if k <= 1 {
        a[0] as int
    } else {
        let m = spec_vec_max(a, (k - 1) as nat);
        if (a[k - 1] as int) > m {
            a[k - 1] as int
        } else {
            m
        }
    }
}

/// The running extrema bound every element they cover.
proof fn lemma_minmax_bounds(a: Seq<i64>, k: nat, j: int)
    requires
        0 <= j < k,
        k <= a.len(),
    ensures
        spec_vec_min(a, k) <= a[j] as int <= spec_vec_max(a, k),
    decreases k,
{
    if k > 1 && j < k - 1 {
        lemma_minmax_bounds(a, (k - 1) as nat, j);
    }
}

/// The degenerate-range threshold for activation normalization (the
/// scalar 1e-6).
pub const NORM_EPS: i64 = 268;

/// Activations rescaled into display bytes: the observed range is mapped
/// onto 0..=255; a nearly constant signal maps to the neutral value 128.
pub open spec fn spec_normalize_activations(a: Seq<i64>) -> Seq<u8> {
    if a.len() == 0 {
        Seq::empty()
    } else {
        let mn = spec_vec_min(a, a.len());
        let mx = spec_vec_max(a, a.len());
        if mx - mn < NORM_EPS as int {
            Seq::new(a.len(), |i: int| 128u8)
        } else {
            Seq::new(a.len(), |i: int| ((((a[i] as int) - mn) * 255) / (mx - mn)) as u8)
        }
    }
}

/// Rescale activations into display bytes, exactly as
/// `spec_normalize_activations` says.
pub fn normalize_activations(activations: &Vec<i64>) -> (r: Vec<u8>)
    ensures
        r@ == spec_normalize_activations(activations@),
{
    let n = activations.len();
    if n == 0 {
        let r: Vec<u8> = Vec::new();
        proof {
            assert(r@ =~= spec_normalize_activations(activations@));
        }
        return r;
    }
    let mut mn = activations[0];
    let mut mx = activations[0];
    let mut i: usize = 1;
    while i < n
        invariant
            1 <= i <= n,
            n == activations@.len(),
            mn as int == spec_vec_min(activations@, i as nat),
            mx as int == spec_vec_max(activations@, i as nat),
        decreases n - i,
    {
        let v = activations[i];
        if v < mn {
            mn = v;
        }
        if v > mx {
            mx = v;
        }
        i = i + 1;
    }
    let range: i128 = mx as i128 - mn as i128;
    if range < NORM_EPS as i128 {
        let mut out: Vec<u8> = Vec::new();
        let mut j: usize = 0;
        while j < n
            invariant
                j <= n,
                out@.len() == j,
                forall|q: int| 0 <= q < j ==> out@[q] == 128u8,
            decreases n - j,
        {
            out.push(128);
            j = j + 1;
        }
        proof {
            assert(out@ =~= spec_normalize_activations(activations@));
        }
        out
    } else {
        let mut out: Vec<u8> = Vec::new();
        let mut j: usize = 0;
        while j < n
            invariant
                j <= n,
                n == activations@.len(),
                mn as int == spec_vec_min(activations@, n as nat),
                mx as int == spec_vec_max(activations@, n as nat),
                range == mx as int - mn as int,
                range >= NORM_EPS as int,
                out@.len() == j,
                forall|q: int|
                    0 <= q < j ==> out@[q] as int == ((((activations@[q] as int) - (mn as int))
                        * 255) / ((mx as int) - (mn as int))),
            decreases n - j,
        {
            let v = activations[j];
            proof {
                lemma_minmax_bounds(activations@, n as nat, j as int);
                vstd::arithmetic::mul::lemma_mul_inequality(
                    v as int - mn as int,
                    mx as int - mn as int,
                    255,
                );
                vstd::arithmetic::div_mod::lemma_div_is_ordered(
                    (v as int - mn as int) * 255,
                    (mx as int - mn as int) * 255,
                    mx as int - mn as int,
                );
                vstd::arithmetic::mul::lemma_mul_is_commutative(mx as int - mn as int, 255);
                vstd::arithmetic::div_mod::lemma_div_multiples_vanish(
                    255,
                    mx as int - mn as int,
                );
                vstd::arithmetic::mul::lemma_mul_nonnegative(v as int - mn as int, 255);
                vstd::arithmetic::div_mod::lemma_div_pos_is_pos(
                    (v as int - mn as int) * 255,
                    mx as int - mn as int,
                );
            }
            let num: i128 = (v as i128 - mn as i128) * 255;
            let q: i128 = num / range;
            out.push(q as u8);
            j = j + 1;
        }
        proof {
            assert(out@ =~= spec_normalize_activations(activations@));
        }
        out
    }
}

/// The raw attention-style heatmap: the outer product of a query and a
/// key vector over a `size x size` grid, zero where either vector runs
/// out.
pub open spec fn spec_heatmap_raw(q: Seq<i64>, k: Seq<i64>, size: int) -> TensorView {
    TensorView {
        data: Seq::new(
            (size * size) as nat,
            |p: int|
                {
                    let i = p / size;
                    let j = p % size;
                    if i < q.len() && j < k.len() {
                        crate::fixed::spec_fx_mul(q[i] as int, k[j] as int)
                    } else {
                        0
                    }
                },
        ),
        rows: size,
        cols: size,
    }
}

/// Compute an attention-style heatmap: the query/key outer product,
/// row-wise softmax normalized.
pub fn compute_attention_heatmap(query: &Vec<i64>, key: &Vec<i64>, size: usize) -> (r: Vec<i64>)
    requires
        size * size <= usize::MAX,
    ensures
        r@.len() == size * size,
        forall|p: int|
            0 <= p < r@.len() ==> r@[p] as int == crate::tensor::tv_softmax(
                spec_heatmap_raw(query@, key@, size as int),
            ).data[p],
{
    let mut data: Vec<i64> = Vec::new();
    let mut i: usize = 0;
    while i < size
        invariant
            i <= size,
            data@.len() == i * (size as int),
            forall|q: int|
                0 <= q < data@.len() ==> data@[q] as int == spec_heatmap_raw(
                    query@,
                    key@,
                    size as int,
                ).data[q],
        decreases size - i,
    {
        let mut j: usize = 0;
        while j < size
            invariant
                i < size,
                j <= size,
                data@.len() == i * (size as int) + j,
                forall|q: int|
                    0 <= q < data@.len() ==> data@[q] as int == spec_heatmap_raw(
                        query@,
                        key@,
                        size as int,
                    ).data[q],
            decreases size - j,
        {
            proof {
                lemma_rm_index(i as int, j as int, size as int, size as int);
                lemma_rm_div(i as int, j as int, size as int);
            }
            let v = if i < query.len() && j < key.len() {
                fx_mul(query[i], key[j])
            } else {
                0
            };
            data.push(v);
            j = j + 1;
        }
        proof {
            vstd::arithmetic::mul::lemma_mul_is_distributive_add_other_way(
                size as int,
                i as int,
                1,
            );
        }
        i = i + 1;
    }
    let ghost gdata = data@;
    let t = Tensor::from_vec(data, size, size);
    proof {
        let tv = spec_heatmap_raw(query@, key@, size as int);
        assert forall|p: int| 0 <= p < t@.data.len() implies t@.data[p] == tv.data[p] by {
            assert(t@.data[p] == gdata[p] as int);
        };
        assert(t@ =~= tv);
    }
    let sm = t.softmax();
    sm.to_flat_vec()
}

/// Relies on `String::push`: appends the given character to the end of
/// the string.
pub assume_specification[ String::push ](s: &mut String, ch: char)
    ensures
        final(s)@ == old(s)@.push(ch),
;

/// The display character of one puzzle cell: `.` for an empty cell, the
/// decimal digit otherwise.
pub open spec fn spec_sudoku_char(v: u8) -> char {
    if v == 0 {
        '.'
    } else {
        ((48 + v) as u8) as char
    }
}

/// The textual rendering of the first `k` cells: nine cells per line.
pub open spec fn spec_decode_sudoku(output: Seq<u8>, k: nat) -> Seq<char>
    decreases k,
{
    if k == 0 {
        Seq::empty()
    } else {
        let prev = spec_decode_sudoku(output, (k - 1) as nat);
        let cell = spec_sudoku_char(output[k - 1]);
        if k - 1 > 0 && (k - 1) % 9 == 0 {
            prev.push('\n').push(cell)
        } else {
            prev.push(cell)
        }
    }
}

/// Render a decoded puzzle output as text, nine cells per line: `.` for
/// empty cells, decimal digits otherwise.
pub fn decode_sudoku_output(output: &Vec<u8>) -> (r: String)
    requires
        forall|i: int| 0 <= i < output@.len() ==> output@[i] <= 207,
    ensures
        r@ == spec_decode_sudoku(output@, output@.len()),
{
    let mut result = String::new();
    let n = output.len();
    let mut i: usize = 0;
    while i < n
        invariant
            i <= n,
            n == output@.len(),
            forall|q: int| 0 <= q < n ==> output@[q] <= 207,
            result@ == spec_decode_sudoku(output@, i as nat),
        decreases n - i,
    {
        if i > 0 && i % 9 == 0 {
            result.push('\n');
        }
        let v = output[i];
        if v == 0 {
            result.push('.');
        } else {
            result.push((48 + v) as char);
        }
        i = i + 1;
    }
    result
}

/// The flat index of box `b`'s cell at in-box position `c`.
pub open spec fn box_cell(b: int, c: int) -> int {
    ((b / 3) * 3 + c / 3) * 9 + (b % 3) * 3 + c % 3
}

/// A valid solved grid: 81 cells, each holding a digit 1..=9, with no
/// repeated digit in any row, column, or 3x3 box.
pub open spec fn spec_valid_sudoku(g: Seq<u8>) -> bool {
    &&& g.len() == 81
    &&& forall|p: int| 0 <= p < 81 ==> 1 <= #[trigger] g[p] <= 9
    &&& forall|i: int, j1: int, j2: int|
        0 <= i < 9 && 0 <= j1 < j2 < 9 ==> #[trigger] g[i * 9 + j1] != #[trigger] g[i * 9 + j2]
    &&& forall|j: int, i1: int, i2: int|
        0 <= j < 9 && 0 <= i1 < i2 < 9 ==> #[trigger] g[i1 * 9 + j] != #[trigger] g[i2 * 9 + j]
    &&& forall|b: int, c1: int, c2: int|
        0 <= b < 9 && 0 <= c1 < c2 < 9 ==> g[#[trigger] box_cell(b, c1)] != g[#[trigger] box_cell(
            b,
            c2,
        )]
}

/// Some cell among the first `j` of row `i` holds the digit `v`.
spec fn row_has(g: Seq<u8>, i: int, j: int, v: int) -> bool {
    exists|p: int| 0 <= p < j && (#[trigger] g[i * 9 + p]) as int == v
}

/// Some cell among the first `j` of column `i` holds the digit `v`.
spec fn col_has(g: Seq<u8>, i: int, j: int, v: int) -> bool {
    exists|p: int| 0 <= p < j && (#[trigger] g[p * 9 + i]) as int == v
}

/// Some cell among the first `j` of box `b` holds the digit `v`.
spec fn box_has(g: Seq<u8>, b: int, j: int, v: int) -> bool {
    exists|p: int| 0 <= p < j && (g[#[trigger] box_cell(b, p)]) as int == v
}

/// Check whether a grid is a valid solved puzzle.
pub fn validate_sudoku(grid: &Vec<u8>) -> (r: bool)
    ensures
        r == spec_valid_sudoku(grid@),
{
    if grid.len() != 81 {
        return false;
    }
    // rows: every cell a digit, no digit repeated within a row
    let mut i: usize = 0;
    while i < 9
        invariant
            i <= 9,
            grid@.len() == 81,
            forall|ii: int, p: int|
                0 <= ii < i && 0 <= p < 9 ==> 1 <= #[trigger] grid@[ii * 9 + p] <= 9,
            forall|ii: int, j1: int, j2: int|
                0 <= ii < i && 0 <= j1 < j2 < 9 ==> #[trigger] grid@[ii * 9 + j1] != #[trigger] grid@[ii
                    * 9 + j2],
        decreases 9 - i,
    {
        let mut seen: Vec<bool> = vec![false; 10];
        let mut j: usize = 0;
        while j < 9
            invariant
                i < 9,
                j <= 9,
                grid@.len() == 81,
                seen@.len() == 10,
                forall|p: int| 0 <= p < j ==> 1 <= #[trigger] grid@[i * 9 + p] <= 9,
                forall|p1: int, p2: int|
                    0 <= p1 < p2 < j ==> #[trigger] grid@[i * 9 + p1] != #[trigger] grid@[i * 9 + p2],
                forall|v: int|
                    1 <= v <= 9 ==> ((#[trigger] seen@[v]) <==> row_has(grid@, i as int, j as int, v)),
            decreases 9 - j,
        {
            let v = grid[i * 9 + j] as usize;
            if v < 1 || v > 9 {
                proof {
                    assert(!(1 <= grid@[i as int * 9 + j as int] <= 9));
                    assert(0 <= (i as int) * 9 + (j as int) < 81);
                    assert(!spec_valid_sudoku(grid@));
                }
                return false;
            }
            if seen[v] {
                proof {
                    let p = choose|p: int|
                        0 <= p < j && (#[trigger] grid@[i as int * 9 + p]) as int == v as int;
                    assert(grid@[i as int * 9 + p] == grid@[i as int * 9 + j as int]);
                    assert(0 <= (i as int) < 9 && 0 <= p < (j as int) < 9);
                    assert(!spec_valid_sudoku(grid@));
                }
                return false;
            }
            seen.set(v, true);
            j = j + 1;
            proof {
                assert forall|vv: int|
                    1 <= vv <= 9 implies ((#[trigger] seen@[vv]) <==> row_has(
                    grid@,
                    i as int,
                    j as int,
                    vv,
                )) by {
                    if vv == v as int {
                        assert((grid@[i as int * 9 + (j - 1)]) as int == vv);
                    } else {
                        if row_has(grid@, i as int, j as int, vv) {
                            let p = choose|p: int|
                                0 <= p < j && (#[trigger] grid@[i as int * 9 + p]) as int == vv;
                            assert(p < j - 1);
                        }
                    }
                };
            }
        }
        i = i + 1;
    }
    // columns: no digit repeated within a column
    let mut c: usize = 0;
    while c < 9
        invariant
            c <= 9,
            grid@.len() == 81,
            forall|jj: int, i1: int, i2: int|
                0 <= jj < c && 0 <= i1 < i2 < 9 ==> #[trigger] grid@[i1 * 9 + jj] != #[trigger] grid@[i2
                    * 9 + jj],
        decreases 9 - c,
    {
        let mut seen: Vec<bool> = vec![false; 10];
        let mut j: usize = 0;
        while j < 9
            invariant
                c < 9,
                j <= 9,
                grid@.len() == 81,
                seen@.len() == 10,
                forall|p: int| 0 <= p < j ==> 1 <= #[trigger] grid@[p * 9 + c] <= 9,
                forall|p1: int, p2: int|
                    0 <= p1 < p2 < j ==> #[trigger] grid@[p1 * 9 + c] != #[trigger] grid@[p2 * 9 + c],
                forall|v: int|
                    1 <= v <= 9 ==> ((#[trigger] seen@[v]) <==> col_has(grid@, c as int, j as int, v)),
            decreases 9 - j,
        {
            let v = grid[j * 9 + c] as usize;
            if v < 1 || v > 9 {
                proof {
                    assert(!(1 <= grid@[j as int * 9 + c as int] <= 9));
                    assert(0 <= (j as int) * 9 + (c as int) < 81);
                    assert(!spec_valid_sudoku(grid@));
                }
                return false;
            }
            if seen[v] {
                proof {
                    let p = choose|p: int|
                        0 <= p < j && (#[trigger] grid@[p * 9 + c as int]) as int == v as int;
                    assert(grid@[p * 9 + c as int] == grid@[j as int * 9 + c as int]);
                    assert(0 <= (c as int) < 9 && 0 <= p < (j as int) < 9);
                    assert(!spec_valid_sudoku(grid@));
                }
                return false;
            }
            seen.set(v, true);
            j = j + 1;
            proof {
                assert forall|vv: int|
                    1 <= vv <= 9 implies ((#[trigger] seen@[vv]) <==> col_has(
                    grid@,
                    c as int,
                    j as int,
                    vv,
                )) by {
                    if vv == v as int {
                        assert((grid@[(j - 1) * 9 + c as int]) as int == vv);
                    } else {
                        if col_has(grid@, c as int, j as int, vv) {
                            let p = choose|p: int|
                                0 <= p < j && (#[trigger] grid@[p * 9 + c as int]) as int == vv;
                            assert(p < j - 1);
                        }
                    }
                };
            }
        }
        c = c + 1;
    }
    // boxes: no digit repeated within a 3x3 box
    let mut b: usize = 0;
    while b < 9
        invariant
            b <= 9,
            grid@.len() == 81,
            forall|bb: int, c1: int, c2: int|
                0 <= bb < b && 0 <= c1 < c2 < 9 ==> grid@[#[trigger] box_cell(bb, c1)] != grid@[
                    #[trigger] box_cell(bb, c2)],
        decreases 9 - b,
    {
        let mut seen: Vec<bool> = vec![false; 10];
        let mut j: usize = 0;
        while j < 9
            invariant
                b < 9,
                j <= 9,
                grid@.len() == 81,
                seen@.len() == 10,
                forall|p1: int, p2: int|
                    0 <= p1 < p2 < j ==> grid@[#[trigger] box_cell(b as int, p1)] != grid@[
                        #[trigger] box_cell(b as int, p2)],
                forall|v: int|
                    1 <= v <= 9 ==> ((#[trigger] seen@[v]) <==> box_has(grid@, b as int, j as int, v)),
            decreases 9 - j,
        {
            let row = (b / 3) * 3 + j / 3;
            let col = (b % 3) * 3 + j % 3;
            let idx = row * 9 + col;
            proof {
                assert(idx == box_cell(b as int, j as int));
            }
            let v = grid[idx] as usize;
            if v < 1 || v > 9 {
                proof {
                    assert(!(1 <= grid@[box_cell(b as int, j as int)] <= 9));
                    let bi = box_cell(b as int, j as int);
                    assert(0 <= bi < 81);
                    assert(!spec_valid_sudoku(grid@));
                }
                return false;
            }
            if seen[v] {
                proof {
                    let p = choose|p: int|
                        0 <= p < j && (grid@[#[trigger] box_cell(b as int, p)]) as int == v as int;
                    assert(grid@[box_cell(b as int, p)] == grid@[box_cell(b as int, j as int)]);
                    assert(0 <= (b as int) < 9 && 0 <= p < (j as int) < 9);
                    assert(!spec_valid_sudoku(grid@));
                }
                return false;
            }
            seen.set(v, true);
            j = j + 1;
            proof {
                assert forall|vv: int|
                    1 <= vv <= 9 implies ((#[trigger] seen@[vv]) <==> box_has(
                    grid@,
                    b as int,
                    j as int,
                    vv,
                )) by {
                    if vv == v as int {
                        assert((grid@[box_cell(b as int, j - 1)]) as int == vv);
                    } else {
                        if box_has(grid@, b as int, j as int, vv) {
                            let p = choose|p: int|
                                0 <= p < j && (grid@[#[trigger] box_cell(b as int, p)]) as int == vv;
                            assert(p < j - 1);
                        }
                    }
                };
            }
        }
        b = b + 1;
    }
    proof {
        assert forall|p: int| 0 <= p < 81 implies 1 <= #[trigger] grid@[p] <= 9 by {
            lemma_fundamental_div_mod(p, 9);
            vstd::arithmetic::div_mod::lemma_mod_division_less_than_divisor(p, 9);
            assert(grid@[(p / 9) * 9 + p % 9] == grid@[p]);
        };
    }
    true
}

} // verus!
