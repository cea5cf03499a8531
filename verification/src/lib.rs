//! Forward-pass inference engine for a tiny recursive reasoning network.
//!
//! The crate is built from four layers: a fixed-point scalar core
//! ([`fixed`]), a dense row-major matrix engine ([`tensor`]), the gated
//! feedforward / reasoning-block / attention units ([`layers`]), and the
//! recursive reasoning controller with its grid utilities ([`model`]).
//!
//! Every numeric value is a signed Q35.28 fixed-point scalar carried in an
//! `i64`; all arithmetic saturates at `fixed::FX_MAX` in magnitude, so every
//! operation is total and its result is pinned down exactly by the spec
//! functions that the contracts use.

pub mod fixed;
pub mod rng;
pub mod tensor;
pub mod layers;
pub mod model;

pub use tensor::Tensor;
pub use layers::{Attention, ReasoningBlock, SwiGLU};
pub use model::{
    argmax, compute_attention_heatmap, create_maze_input, create_sudoku_input,
    decode_sudoku_output, normalize_activations, validate_sudoku, StepInfo, TRMConfig, TRM,
};
