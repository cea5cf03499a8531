//! Tensor engine behavior on concrete values.

use trm::fixed::{
    fx_cos, fx_exp, fx_ln, fx_sigmoid, fx_silu, fx_sqrt, FX_HALF_PI, FX_ONE,
};
use trm::rng::Rng64;
use trm::Tensor;

fn fx(x: f64) -> i64 {
    (x * FX_ONE as f64).round() as i64
}

fn to_f(x: i64) -> f64 {
    x as f64 / FX_ONE as f64
}

fn tensor_from(data: &[f64], rows: usize, cols: usize) -> Tensor {
    let v: Vec<i64> = data.iter().map(|&x| fx(x)).collect();
    Tensor::from_vec(v, rows, cols)
}

#[test]
fn zeros_has_shape_and_zero_fill() {
    let t = Tensor::zeros(3, 4);
    assert_eq!(t.rows(), 3);
    assert_eq!(t.cols(), 4);
    let flat = t.to_flat_vec();
    assert_eq!(flat.len(), 12);
    assert!(flat.iter().all(|&x| x == 0));
}

#[test]
fn elementwise_ops_are_exact_on_integers() {
    let a = tensor_from(&[1.0, 2.0, 3.0, 4.0], 2, 2);
    let b = tensor_from(&[5.0, 6.0, 7.0, 8.0], 2, 2);
    assert_eq!(a.add(&b).to_flat_vec(), vec![fx(6.0), fx(8.0), fx(10.0), fx(12.0)]);
    assert_eq!(a.sub(&b).to_flat_vec(), vec![fx(-4.0), fx(-4.0), fx(-4.0), fx(-4.0)]);
    assert_eq!(a.mul(&b).to_flat_vec(), vec![fx(5.0), fx(12.0), fx(21.0), fx(32.0)]);
    assert_eq!(a.scale(fx(2.0)).to_flat_vec(), vec![fx(2.0), fx(4.0), fx(6.0), fx(8.0)]);
}

#[test]
fn matmul_matches_hand_computation() {
    let a = tensor_from(&[1.0, 2.0, 3.0, 4.0], 2, 2);
    let b = tensor_from(&[5.0, 6.0, 7.0, 8.0], 2, 2);
    let c = a.matmul(&b);
    assert_eq!(c.rows(), 2);
    assert_eq!(c.cols(), 2);
    assert_eq!(c.to_flat_vec(), vec![fx(19.0), fx(22.0), fx(43.0), fx(50.0)]);
}

#[test]
fn matmul_with_identity_returns_input_exactly() {
    let a = tensor_from(&[1.5, -2.25, 0.5, 3.0, 0.0, -7.125], 2, 3);
    let id = tensor_from(
        &[1.0, 0.0, 0.0, 0.0, 1.0, 0.0, 0.0, 0.0, 1.0],
        3,
        3,
    );
    let c = a.matmul(&id);
    assert_eq!(c.to_flat_vec(), a.to_flat_vec());
}

#[test]
fn transpose_is_its_own_inverse() {
    let a = tensor_from(&[1.0, 2.0, 3.0, 4.0, 5.0, 6.0], 2, 3);
    let t = a.transpose();
    assert_eq!(t.rows(), 3);
    assert_eq!(t.cols(), 2);
    assert_eq!(t.get(0, 1), a.get(1, 0));
    let tt = t.transpose();
    assert_eq!(tt.rows(), 2);
    assert_eq!(tt.cols(), 3);
    assert_eq!(tt.to_flat_vec(), a.to_flat_vec());
}

#[test]
fn softmax_rows_sum_to_one_and_are_nonnegative() {
    let a = tensor_from(&[0.1, 0.2, 0.3, 5.0, -3.0, 1.5], 2, 3);
    let s = a.softmax();
    for i in 0..2 {
        let mut sum = 0.0f64;
        for j in 0..3 {
            let v = to_f(s.get(i, j));
            assert!(v >= 0.0);
            assert!(v <= 1.0);
            sum += v;
        }
        assert!((sum - 1.0).abs() < 1e-5, "row {} sums to {}", i, sum);
    }
}

#[test]
fn rms_norm_yields_unit_rms_rows() {
    let a = tensor_from(&[3.0, 4.0, 1.0, 2.0, 2.0, 4.0], 2, 3);
    let n = a.rms_norm(0);
    for i in 0..2 {
        let mut sum_sq = 0.0f64;
        for j in 0..3 {
            let v = to_f(n.get(i, j));
            sum_sq += v * v;
        }
        let rms = (sum_sq / 3.0).sqrt();
        assert!((rms - 1.0).abs() < 1e-4, "row {} has rms {}", i, rms);
    }
}

#[test]
fn rms_norm_fixes_unit_rows_exactly() {
    let a = tensor_from(&[1.0, 1.0, 1.0, 1.0, 1.0, 1.0], 2, 3);
    let n = a.rms_norm(0);
    assert_eq!(n.to_flat_vec(), a.to_flat_vec());
}

#[test]
fn rms_norm_of_zero_row_is_zero() {
    let a = tensor_from(&[0.0, 0.0, 0.0], 1, 3);
    let n = a.rms_norm(0);
    assert_eq!(n.to_flat_vec(), vec![0, 0, 0]);
}

#[test]
fn silu_matches_reference_values() {
    assert_eq!(fx_silu(0), 0);
    assert!((to_f(fx_silu(fx(1.0))) - 0.7310586).abs() < 1e-4);
    assert!((to_f(fx_silu(fx(-1.0))) + 0.2689414).abs() < 1e-4);
    let a = tensor_from(&[0.0, 1.0], 1, 2);
    let s = a.silu();
    assert_eq!(s.get(0, 0), 0);
    assert!((to_f(s.get(0, 1)) - 0.7310586).abs() < 1e-4);
}

#[test]
fn scalar_kernels_match_reference_values() {
    assert_eq!(fx_exp(0), FX_ONE);
    assert!((to_f(fx_exp(-FX_ONE)) - 0.36787944).abs() < 1e-4);
    assert!((to_f(fx_exp(-3 * FX_ONE)) - 0.049787068).abs() < 1e-4);
    assert_eq!(fx_sigmoid(0), FX_ONE / 2);
    assert!((to_f(fx_sigmoid(2 * FX_ONE)) - 0.8807971).abs() < 1e-4);
    assert_eq!(fx_sqrt(4 * FX_ONE), 2 * FX_ONE);
    assert_eq!(fx_ln(FX_ONE), 0);
    assert!((to_f(fx_ln(FX_ONE / 2)) + 0.6931472).abs() < 1e-3);
    assert_eq!(fx_cos(0), FX_ONE);
    assert!(to_f(fx_cos(FX_HALF_PI)).abs() < 1e-3);
}

#[test]
fn mean_and_stddev_on_simple_data() {
    let a = tensor_from(&[1.0, 2.0, 3.0, 4.0], 2, 2);
    assert_eq!(a.mean(), fx(2.5));
    let b = tensor_from(&[0.0, 2.0], 1, 2);
    assert_eq!(b.mean(), fx(1.0));
    assert_eq!(b.stddev(), FX_ONE);
    let c = tensor_from(&[5.0, 5.0, 5.0], 1, 3);
    assert_eq!(c.stddev(), 0);
}

#[test]
fn randn_is_deterministic_per_seed() {
    let mut r1 = Rng64::new(7);
    let mut r2 = Rng64::new(7);
    let a = Tensor::randn(3, 5, FX_ONE, &mut r1);
    let b = Tensor::randn(3, 5, FX_ONE, &mut r2);
    assert_eq!(a.rows(), 3);
    assert_eq!(a.cols(), 5);
    assert_eq!(a.to_flat_vec(), b.to_flat_vec());
    let mut r3 = Rng64::new(8);
    let c = Tensor::randn(3, 5, FX_ONE, &mut r3);
    assert_ne!(a.to_flat_vec(), c.to_flat_vec());
}

#[test]
fn row_and_set_row_round_trip() {
    let mut a = tensor_from(&[1.0, 2.0, 3.0, 4.0], 2, 2);
    assert_eq!(a.row(1), vec![fx(3.0), fx(4.0)]);
    let newrow = vec![fx(9.0), fx(8.0)];
    a.set_row(0, &newrow);
    assert_eq!(a.row(0), newrow);
    assert_eq!(a.row(1), vec![fx(3.0), fx(4.0)]);
}

#[test]
fn slice_cols_extracts_the_band() {
    let a = tensor_from(&[1.0, 2.0, 3.0, 4.0, 5.0, 6.0], 2, 3);
    let s = a.slice_cols(1, 2);
    assert_eq!(s.rows(), 2);
    assert_eq!(s.cols(), 2);
    assert_eq!(s.to_flat_vec(), vec![fx(2.0), fx(3.0), fx(5.0), fx(6.0)]);
}
