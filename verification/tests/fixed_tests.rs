use feedforward::activation::{relu, relu_derivative, Activation, Relu};
use feedforward::fixed::{Fixed, ONE_RAW};
use feedforward::matrix::Matrix;
use feedforward::network::Network;
use feedforward::scalar::Scalar;

fn fx(value: f64) -> Fixed {
    Fixed::from_raw((value * 4294967296.0) as i64)
}

fn raws(v: &[Fixed]) -> Vec<i64> {
    v.iter().map(|x| x.raw).collect()
}

fn fixed_matrix(rows: usize, cols: usize, values: &[f64]) -> Matrix<Fixed> {
    Matrix { rows, cols, data: values.iter().map(|&v| fx(v)).collect() }
}

#[test]
fn constants() {
    assert_eq!(ONE_RAW, 1i64 << 32);
    assert_eq!(Fixed::zero().raw, 0);
    assert_eq!(Fixed::one().raw, 1i64 << 32);
    assert_eq!(Fixed::from_int(3).raw, 3i64 << 32);
    assert_eq!(Fixed::from_int(-2).raw, -(2i64 << 32));
    assert_eq!(Fixed::from_int(i32::MIN).raw, i64::MIN);
    assert_eq!(Fixed::from_raw(17).raw, 17);
}

#[test]
fn addition_and_subtraction_are_exact_in_range() {
    assert_eq!(fx(1.5).add(fx(2.25)).raw, fx(3.75).raw);
    assert_eq!(fx(1.5).sub(fx(2.25)).raw, fx(-0.75).raw);
    assert_eq!(fx(-1.5).add(fx(1.5)).raw, 0);
}

#[test]
fn addition_and_subtraction_wrap() {
    assert_eq!(Fixed::from_raw(i64::MAX).add(Fixed::from_raw(1)).raw, i64::MIN);
    assert_eq!(Fixed::from_raw(i64::MIN).sub(Fixed::from_raw(1)).raw, i64::MAX);
    assert_eq!(Fixed::from_raw(i64::MIN).add(Fixed::from_raw(i64::MIN)).raw, 0);
    assert_eq!(Fixed::from_raw(i64::MAX).sub(Fixed::from_raw(i64::MIN)).raw, -1);
}

#[test]
fn multiplication_is_exact_where_it_can_be() {
    assert_eq!(fx(1.5).mul(fx(2.5)).raw, 16106127360);
    assert_eq!(fx(-1.5).mul(fx(2.5)).raw, -16106127360);
    assert_eq!(fx(-1.5).mul(fx(-2.5)).raw, 16106127360);
    assert_eq!(fx(0.5).mul(Fixed::one()).raw, fx(0.5).raw);
    assert_eq!(fx(123.0).mul(Fixed::zero()).raw, 0);
}

#[test]
fn multiplication_rounds_down() {
    assert_eq!(Fixed::from_raw(1).mul(Fixed::from_raw(1)).raw, 0);
    assert_eq!(Fixed::from_raw(-1).mul(Fixed::from_raw(1)).raw, -1);
    assert_eq!(Fixed::from_raw(3).mul(fx(0.5)).raw, 1);
    assert_eq!(Fixed::from_raw(-3).mul(fx(0.5)).raw, -2);
}

#[test]
fn multiplication_wraps() {
    // 2^31 * 2 leaves the range and comes back as -2^31.
    assert_eq!(Fixed::from_raw(i64::MIN).mul(Fixed::from_int(-1)).raw, i64::MIN);
    assert_eq!(Fixed::from_raw(1i64 << 62).mul(Fixed::from_int(2)).raw, i64::MIN);
    assert_eq!(Fixed::from_raw(i64::MIN).mul(Fixed::from_raw(i64::MIN)).raw, 0);
}

#[test]
fn sign_test() {
    assert!(Fixed::from_raw(1).is_positive());
    assert!(!Fixed::from_raw(0).is_positive());
    assert!(!Fixed::from_raw(-1).is_positive());
}

#[test]
fn reciprocal_of_a_count() {
    assert_eq!(Fixed::reciprocal(1).raw, 1i64 << 32);
    assert_eq!(Fixed::reciprocal(2).raw, 1i64 << 31);
    assert_eq!(Fixed::reciprocal(3).raw, 1431655765);
    assert_eq!(Fixed::reciprocal(4).raw, 1i64 << 30);
    assert_eq!(Fixed::reciprocal(usize::MAX).raw, 0);
}

#[test]
fn unit_interval_values() {
    assert_eq!(Fixed::unit(0).raw, 0);
    assert_eq!(Fixed::unit(0x8000_0000).raw, fx(0.5).raw);
    assert_eq!(Fixed::unit(u32::MAX).raw, (1i64 << 32) - 1);
}

#[test]
fn rectifier() {
    assert_eq!(relu(fx(2.5)).raw, fx(2.5).raw);
    assert_eq!(relu(fx(-2.5)).raw, 0);
    assert_eq!(relu(Fixed::zero()).raw, 0);
    assert_eq!(relu_derivative(fx(2.5)).raw, ONE_RAW);
    assert_eq!(relu_derivative(fx(-2.5)).raw, 0);
    assert_eq!(relu_derivative(Fixed::zero()).raw, 0);
    assert_eq!(Relu.function(fx(-1.0)).raw, 0);
    assert_eq!(Relu.function(fx(1.0)).raw, ONE_RAW);
    assert_eq!(Relu.derivative(fx(1.0)).raw, ONE_RAW);
    assert_eq!(Relu.derivative(fx(-1.0)).raw, 0);
}

#[test]
fn fixed_matrix_product() {
    let m1 = fixed_matrix(2, 3, &[1.0, 2.0, 3.0, 4.0, 5.0, 6.0]);
    let m2 = fixed_matrix(3, 2, &[7.0, 8.0, 9.0, 10.0, 11.0, 12.0]);
    let result = m1.dot_multiply(&m2);
    assert_eq!(raws(&result.data), raws(&fixed_matrix(2, 2, &[58.0, 64.0, 139.0, 154.0]).data));
}

#[test]
fn random_fixed_entries_lie_in_the_unit_interval() {
    let m: Matrix<Fixed> = Matrix::random(5, 7);
    assert_eq!(m.data.len(), 35);
    for v in &m.data {
        assert!(0 <= v.raw && v.raw < ONE_RAW);
    }
}

fn linear_unit(weight: f64, bias: f64, rate: f64) -> Network<Fixed, Relu> {
    Network::from_parameters(
        vec![1, 1],
        vec![fixed_matrix(1, 1, &[weight])],
        vec![fixed_matrix(1, 1, &[bias])],
        Relu,
        true,
        fx(rate),
    )
}

#[test]
fn fixed_forward_pass() {
    let mut net = linear_unit(0.5, 0.25, 0.125);
    assert_eq!(raws(&net.forward(&[fx(1.0)])), vec![fx(0.75).raw]);
    assert_eq!(raws(&net.forward(&[fx(-3.0)])), vec![fx(-1.25).raw]);
}

#[test]
fn fixed_training_step_is_exact() {
    // error 1.5, step 0.125: the weight and the bias both grow by 0.1875
    let mut net = linear_unit(0.5, 0.0, 0.125);
    net.train(&[fx(1.0)], &[fx(2.0)]);
    assert_eq!(raws(&net.weights()[0].data), vec![fx(0.6875).raw]);
    assert_eq!(raws(&net.biases()[0].data), vec![fx(0.1875).raw]);
    assert_eq!(raws(&net.forward(&[fx(1.0)])), vec![fx(0.875).raw]);
}

#[test]
fn fixed_batches_do_not_depend_on_the_worker_count() {
    let inputs: Vec<Vec<Fixed>> = (0..7).map(|k| vec![fx(0.25 * k as f64), fx(1.0 - 0.125 * k as f64)]).collect();
    let targets: Vec<Vec<Fixed>> = (0..7).map(|k| vec![fx(0.5 * k as f64 - 1.0)]).collect();
    let make = || -> Network<Fixed, Relu> {
        Network::from_parameters(
            vec![2, 3, 1],
            vec![
                fixed_matrix(3, 2, &[0.5, -0.25, 0.75, 0.125, -0.5, 1.0]),
                fixed_matrix(1, 3, &[0.25, -0.75, 0.5]),
            ],
            vec![fixed_matrix(3, 1, &[0.125, 0.0, -0.25]), fixed_matrix(1, 1, &[0.0625])],
            Relu,
            true,
            fx(0.0625),
        )
    };
    let mut serial = make();
    serial.train_batch_parallel(&inputs, &targets, 1);
    let untouched = make();
    assert_ne!(raws(&serial.weights()[0].data), raws(&untouched.weights()[0].data));
    for workers in 2..=9 {
        let mut split = make();
        split.train_batch_parallel(&inputs, &targets, workers);
        for i in 0..2 {
            assert_eq!(raws(&split.weights()[i].data), raws(&serial.weights()[i].data));
            assert_eq!(raws(&split.biases()[i].data), raws(&serial.biases()[i].data));
        }
    }
}
