use aetherion::tensor::{Tensor, TensorError};
use aetherion::fixed::{FX_ONE, FX_MAX, fx_add, fx_mul, fx_div, fx_exp};

fn fx(x: f64) -> i64 {
    (x * 65536.0).round() as i64
}

fn to_f(v: i64) -> f64 {
    v as f64 / 65536.0
}

#[test]
fn test_tensor_creation_zeros() {
    let tensor = Tensor::zeros(&[2, 3]);
    assert_eq!(tensor.shape(), &vec![2, 3]);
    assert_eq!(tensor.data().len(), 6);
    assert!(tensor.data().iter().all(|&x| x == 0));
}

#[test]
fn test_tensor_creation_ones() {
    let tensor = Tensor::ones(&[2, 2]);
    assert_eq!(tensor.shape(), &vec![2, 2]);
    assert!(tensor.data().iter().all(|&x| x == fx(1.0)));
}

#[test]
fn test_tensor_from_slice() {
    let data = vec![fx(1.0), fx(2.0), fx(3.0), fx(4.0)];
    let tensor = Tensor::from_slice(&data, &[2, 2]).unwrap();
    assert_eq!(tensor.data(), &vec![fx(1.0), fx(2.0), fx(3.0), fx(4.0)]);
}

#[test]
fn test_tensor_matmul() {
    let a = Tensor::from_slice(&[fx(1.0), fx(2.0), fx(3.0), fx(4.0)], &[2, 2]).unwrap();
    let b = Tensor::from_slice(&[fx(5.0), fx(6.0), fx(7.0), fx(8.0)], &[2, 2]).unwrap();

    let c = a.matmul(&b).unwrap();

    assert_eq!(c.data()[0], fx(19.0));
    assert_eq!(c.data()[1], fx(22.0));
    assert_eq!(c.data()[2], fx(43.0));
    assert_eq!(c.data()[3], fx(50.0));
}

#[test]
fn test_tensor_add() {
    let a = Tensor::from_slice(&[fx(1.0), fx(2.0), fx(3.0)], &[3]).unwrap();
    let b = Tensor::from_slice(&[fx(4.0), fx(5.0), fx(6.0)], &[3]).unwrap();

    let c = a.add(&b).unwrap();
    assert_eq!(c.data(), &vec![fx(5.0), fx(7.0), fx(9.0)]);
}

#[test]
fn test_tensor_mul() {
    let a = Tensor::from_slice(&[fx(2.0), fx(3.0), fx(4.0)], &[3]).unwrap();
    let b = Tensor::from_slice(&[fx(5.0), fx(6.0), fx(7.0)], &[3]).unwrap();

    let c = a.mul(&b).unwrap();
    assert_eq!(c.data(), &vec![fx(10.0), fx(18.0), fx(28.0)]);
}

#[test]
fn test_tensor_relu() {
    let mut tensor = Tensor::from_slice(&[fx(-1.0), fx(0.0), fx(1.0), fx(2.0)], &[4]).unwrap();
    tensor.relu();
    assert_eq!(tensor.data(), &vec![fx(0.0), fx(0.0), fx(1.0), fx(2.0)]);
}

#[test]
fn test_tensor_softmax() {
    let mut tensor = Tensor::from_slice(&[fx(1.0), fx(2.0), fx(3.0)], &[3]).unwrap();
    tensor.softmax();

    let sum: f64 = tensor.data().iter().map(|&x| to_f(x)).sum();
    assert!((sum - 1.0).abs() < 0.001);

    assert!(tensor.data().iter().all(|&x| to_f(x) >= 0.0 && to_f(x) <= 1.0));
}

#[test]
fn test_tensor_layer_norm() {
    let mut tensor = Tensor::from_slice(&[fx(1.0), fx(2.0), fx(3.0), fx(4.0)], &[4]).unwrap();
    tensor.layer_norm((1e-5 * 65536.0) as i64);

    let mean: f64 = tensor.data().iter().map(|&x| to_f(x)).sum::<f64>() / 4.0;
    assert!(mean.abs() < 0.001);
}

#[test]
fn test_from_slice_count_mismatch() {
    let r = Tensor::from_slice(&[fx(1.0), fx(2.0), fx(3.0)], &[2, 2]);
    assert_eq!(r.unwrap_err(), TensorError::ValueCountMismatch);
}

#[test]
fn test_add_shape_mismatch() {
    let a = Tensor::zeros(&[2, 2]);
    let b = Tensor::zeros(&[4]);
    assert_eq!(a.add(&b).unwrap_err(), TensorError::ShapeMismatch);
}

#[test]
fn test_mul_shape_mismatch() {
    let a = Tensor::ones(&[3]);
    let b = Tensor::ones(&[2]);
    assert_eq!(a.mul(&b).unwrap_err(), TensorError::ShapeMismatch);
}

#[test]
fn test_matmul_inner_dim_mismatch() {
    let a = Tensor::ones(&[2, 3]);
    let b = Tensor::ones(&[2, 2]);
    assert_eq!(a.matmul(&b).unwrap_err(), TensorError::ShapeMismatch);
}

#[test]
fn test_matmul_rejects_rank_one() {
    let a = Tensor::ones(&[4]);
    let b = Tensor::ones(&[4]);
    assert_eq!(a.matmul(&b).unwrap_err(), TensorError::ShapeMismatch);
}

#[test]
fn test_matmul_rectangular() {
    // [1 2 3] * [[1],[1],[1]] = [6]
    let a = Tensor::from_slice(&[fx(1.0), fx(2.0), fx(3.0)], &[1, 3]).unwrap();
    let b = Tensor::from_slice(&[fx(1.0), fx(1.0), fx(1.0)], &[3, 1]).unwrap();
    let c = a.matmul(&b).unwrap();
    assert_eq!(c.shape(), &vec![1, 1]);
    assert_eq!(c.data()[0], fx(6.0));
}

#[test]
fn test_softmax_uniform_input() {
    let mut t = Tensor::from_slice(&[fx(0.5), fx(0.5), fx(0.5), fx(0.5)], &[4]).unwrap();
    t.softmax();
    for &v in t.data().iter() {
        assert!((to_f(v) - 0.25).abs() < 0.001);
    }
}

#[test]
fn test_layer_norm_constant_input() {
    // zero variance: every element normalizes to zero
    let mut t = Tensor::from_slice(&[fx(5.0), fx(5.0), fx(5.0)], &[3]).unwrap();
    t.layer_norm(0);
    assert_eq!(t.data(), &vec![0, 0, 0]);
}

#[test]
fn test_zeros_with_zero_dimension() {
    let t = Tensor::zeros(&[3, 0]);
    assert_eq!(t.shape(), &vec![3, 0]);
    assert_eq!(t.data().len(), 0);
}

#[test]
fn test_fx_add_saturates() {
    assert_eq!(fx_add(FX_MAX, FX_MAX), FX_MAX);
    assert_eq!(fx_add(-FX_MAX, -FX_MAX), -FX_MAX);
    assert_eq!(fx_add(fx(1.5), fx(2.25)), fx(3.75));
}

#[test]
fn test_fx_mul_exact_values() {
    assert_eq!(fx_mul(fx(3.0), fx(4.0)), fx(12.0));
    assert_eq!(fx_mul(fx(-1.5), fx(2.0)), fx(-3.0));
    assert_eq!(fx_mul(fx(0.5), fx(0.5)), fx(0.25));
}

#[test]
fn test_fx_div_exact_values() {
    assert_eq!(fx_div(fx(1.0), fx(2.0)), fx(0.5));
    assert_eq!(fx_div(fx(-3.0), fx(2.0)), fx(-1.5));
}

#[test]
fn test_fx_exp_endpoints() {
    assert_eq!(fx_exp(0), FX_ONE);
    assert_eq!(fx_exp(i64::MIN + 1), 1);
    // e^-1 in fixed point, within one percent of the true value
    let e1 = fx_exp(-65536);
    assert!((to_f(e1) - 0.3679).abs() < 0.01);
}

#[test]
fn test_softmax_two_equal_elements_exact() {
    // two equal inputs share the unit exactly: 32768 units each
    let mut t = Tensor::from_slice(&[fx(0.0), fx(0.0)], &[2]).unwrap();
    t.softmax();
    assert_eq!(t.data(), &vec![32768, 32768]);
}

#[test]
fn test_layer_norm_exact_unit_deviation() {
    // mean 2.0, deviations -1.0 and 1.0, variance exactly 1.0
    let mut t = Tensor::from_slice(&[fx(1.0), fx(3.0)], &[2]).unwrap();
    t.layer_norm(0);
    assert_eq!(t.data(), &vec![fx(-1.0), fx(1.0)]);
}
