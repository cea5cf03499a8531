//! Controller behavior: presets, cycle scheduling, reset, decoding, and
//! end-to-end determinism.

use trm::fixed::FX_ONE;
use trm::rng::Rng64;
use trm::{argmax, Attention, ReasoningBlock, SwiGLU, Tensor, TRMConfig, TRM};

fn tiny(h_cycles: usize, l_cycles: usize, use_mlp_t: bool) -> TRMConfig {
    TRMConfig {
        hidden_size: 8,
        num_heads: 2,
        expansion: FX_ONE,
        h_cycles,
        l_cycles,
        l_layers: 1,
        vocab_size: 4,
        seq_len: 4,
        use_mlp_t,
    }
}

#[test]
fn default_config_values() {
    let c = TRMConfig::new();
    assert_eq!(c.hidden_size, 256);
    assert_eq!(c.num_heads, 8);
    assert_eq!(c.expansion, 4 * FX_ONE);
    assert_eq!(c.h_cycles, 3);
    assert_eq!(c.l_cycles, 6);
    assert_eq!(c.l_layers, 2);
    assert_eq!(c.vocab_size, 12);
    assert_eq!(c.seq_len, 81);
    assert!(c.use_mlp_t);
}

#[test]
fn preset_config_values() {
    let s = TRMConfig::for_sudoku();
    assert_eq!(s.hidden_size, 128);
    assert_eq!(s.vocab_size, 12);
    assert_eq!(s.seq_len, 81);
    assert_eq!(s.l_cycles, 6);
    let m = TRMConfig::for_maze();
    assert_eq!(m.vocab_size, 4);
    assert_eq!(m.seq_len, 225);
    assert_eq!(m.l_cycles, 4);
}

#[test]
fn controller_completes_after_the_nested_schedule() {
    let mut model = TRM::with_seed(tiny(2, 3, false), 11);
    let input: Vec<u8> = vec![0, 1, 2, 3];
    // two outer cycles of three inner steps plus one outer step each
    let scheduled = 2 * (3 + 1);
    for k in 0..scheduled {
        assert!(!model.is_complete(), "complete too early at step {}", k);
        model.step(&input);
    }
    assert!(model.is_complete());
}

#[test]
fn steps_after_completion_leave_the_answer_unchanged() {
    let mut model = TRM::with_seed(tiny(1, 2, false), 3);
    let input: Vec<u8> = vec![3, 2, 1, 0];
    for _ in 0..(1 * (2 + 1)) {
        model.step(&input);
    }
    assert!(model.is_complete());
    let answer = model.get_current_output();
    let z_h = model.get_z_h();
    // further inner steps keep the decoded answer and the H-state fixed
    let info1 = model.step(&input);
    let info2 = model.step(&input);
    assert_eq!(model.get_current_output(), answer);
    assert_eq!(model.get_z_h(), z_h);
    // once the inner counter drains too, stepping changes nothing at all
    let frozen_z_l = model.get_z_l();
    let info3 = model.step(&input);
    assert_eq!(info3.total_steps, info2.total_steps);
    assert_eq!(model.get_z_l(), frozen_z_l);
    assert!(info1.total_steps <= info2.total_steps);
}

#[test]
fn reset_is_idempotent() {
    let mut model = TRM::with_seed(tiny(2, 2, true), 99);
    let input: Vec<u8> = vec![1, 1, 2, 2];
    model.step(&input);
    model.step(&input);
    model.reset();
    let z_h_once = model.get_z_h();
    let z_l_once = model.get_z_l();
    let complete_once = model.is_complete();
    model.reset();
    assert_eq!(model.get_z_h(), z_h_once);
    assert_eq!(model.get_z_l(), z_l_once);
    assert_eq!(model.is_complete(), complete_once);
}

#[test]
fn end_to_end_forward_is_deterministic() {
    let mut model = TRM::with_seed(tiny(1, 1, false), 424242);
    let input: Vec<u8> = vec![0, 1, 2, 3];
    let out1 = model.forward(&input);
    assert_eq!(out1.len(), 4);
    assert!(out1.iter().all(|&v| v <= 3));
    let out2 = model.forward(&input);
    assert_eq!(out1, out2);
}

#[test]
fn decode_breaks_ties_toward_the_lowest_index() {
    let logits: Vec<i64> = vec![FX_ONE / 2, FX_ONE / 2, FX_ONE / 5];
    assert_eq!(argmax(&logits), 0);
    let logits2: Vec<i64> = vec![1, 3, 3];
    assert_eq!(argmax(&logits2), 1);
    let logits3: Vec<i64> = vec![-5, -5, -7];
    assert_eq!(argmax(&logits3), 0);
}

#[test]
fn out_of_range_tokens_embed_as_zero() {
    let mut a = TRM::with_seed(tiny(1, 1, false), 5);
    let mut b = TRM::with_seed(tiny(1, 1, false), 5);
    // both inputs lie entirely outside the vocabulary, so both embed to
    // the zero tensor and the runs agree
    let out_a = a.forward(&vec![200, 201, 202, 203]);
    let out_b = b.forward(&vec![250, 251, 252, 253]);
    assert_eq!(out_a, out_b);
}

#[test]
fn step_reports_counters_confidence_and_samples() {
    let mut model = TRM::with_seed(tiny(2, 2, false), 77);
    let input: Vec<u8> = vec![0, 1, 2, 3];
    let info = model.step(&input);
    assert_eq!(info.h_step, 0);
    assert_eq!(info.l_step, 1);
    assert_eq!(info.total_steps, 1);
    assert!(info.confidence >= 0);
    assert!(info.confidence <= FX_ONE);
    // the sampled prefixes are capped at 64 elements (here: hidden_size)
    assert_eq!(info.z_h_activations.len(), 8);
    assert_eq!(info.z_l_activations.len(), 8);
    assert_eq!(info.get_z_h_activations(), info.z_h_activations);
    assert_eq!(info.get_z_l_activations(), info.z_l_activations);
    assert!(info.get_attention_weights().is_empty());
    let info2 = model.step(&input);
    assert_eq!(info2.l_step, 2);
    let info3 = model.step(&input);
    // the inner cycles are exhausted, so the third step is an outer one
    assert_eq!(info3.h_step, 1);
    assert_eq!(info3.l_step, 0);
    assert_eq!(info3.total_steps, 2);
}

#[test]
fn construction_is_deterministic_per_seed() {
    let mut a = TRM::with_seed(tiny(1, 2, true), 1234);
    let mut b = TRM::with_seed(tiny(1, 2, true), 1234);
    let input: Vec<u8> = vec![3, 0, 3, 0];
    a.step(&input);
    b.step(&input);
    assert_eq!(a.get_z_h(), b.get_z_h());
    assert_eq!(a.get_z_l(), b.get_z_l());
}

#[test]
fn entropy_constructor_builds_a_working_model() {
    let mut model = TRM::new(tiny(1, 1, false));
    let out = model.forward(&vec![0, 1, 2, 3]);
    assert_eq!(out.len(), 4);
    assert!(out.iter().all(|&v| v <= 3));
}

#[test]
fn layer_forward_shapes() {
    let mut rng = Rng64::new(21);
    let x = Tensor::zeros(4, 8);
    let unit = SwiGLU::new(8, FX_ONE, &mut rng);
    let y = unit.forward(&x);
    assert_eq!(y.rows(), 4);
    assert_eq!(y.cols(), 8);
    let block = ReasoningBlock::new(8, 4, FX_ONE, true, &mut rng);
    let z = block.forward(&x, &y);
    assert_eq!(z.rows(), 4);
    assert_eq!(z.cols(), 8);
    let attn = Attention::new(8, 2, &mut rng);
    let w = attn.forward(&x);
    assert_eq!(w.rows(), 4);
    assert_eq!(w.cols(), 8);
}
