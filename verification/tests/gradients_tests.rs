use feedforward::fixed::Fixed;
use feedforward::gradients::Gradients;
use feedforward::layout::valid_layers;
use feedforward::matrix::Matrix;

fn fx(value: f64) -> Fixed {
    Fixed::from_raw((value * 4294967296.0) as i64)
}

fn raws(v: &[Fixed]) -> Vec<i64> {
    v.iter().map(|x| x.raw).collect()
}

fn fixed_matrix(rows: usize, cols: usize, values: &[f64]) -> Matrix<Fixed> {
    Matrix { rows, cols, data: values.iter().map(|&v| fx(v)).collect() }
}

#[test]
fn gradients_start_at_zero_in_the_parameters_shapes() {
    let g: Gradients<Fixed> = Gradients::new(&[2, 3, 1]);
    assert_eq!(g.d_weights.len(), 2);
    assert_eq!(g.d_biases.len(), 2);
    assert!(g.d_weights[0].has_shape(3, 2));
    assert!(g.d_biases[0].has_shape(3, 1));
    assert!(g.d_weights[1].has_shape(1, 3));
    assert!(g.d_biases[1].has_shape(1, 1));
    for m in g.d_weights.iter().chain(g.d_biases.iter()) {
        assert!(m.is_well_formed());
        assert!(m.data.iter().all(|v| v.raw == 0));
    }
}

#[test]
fn gradients_of_a_single_layer_list_are_empty() {
    let g: Gradients<Fixed> = Gradients::new(&[4]);
    assert_eq!(g.d_weights.len(), 0);
    assert_eq!(g.d_biases.len(), 0);
}

#[test]
fn gradients_add_scale_and_zero() {
    let mut a: Gradients<Fixed> = Gradients {
        d_weights: vec![fixed_matrix(1, 2, &[1.0, 2.0])],
        d_biases: vec![fixed_matrix(1, 1, &[3.0])],
    };
    let b: Gradients<Fixed> = Gradients {
        d_weights: vec![fixed_matrix(1, 2, &[10.0, 20.0])],
        d_biases: vec![fixed_matrix(1, 1, &[30.0])],
    };
    a.add(&b);
    assert_eq!(raws(&a.d_weights[0].data), vec![fx(11.0).raw, fx(22.0).raw]);
    assert_eq!(raws(&a.d_biases[0].data), vec![fx(33.0).raw]);
    a.scale(fx(0.5));
    assert_eq!(raws(&a.d_weights[0].data), vec![fx(5.5).raw, fx(11.0).raw]);
    assert_eq!(raws(&a.d_biases[0].data), vec![fx(16.5).raw]);
    a.zero();
    assert_eq!(raws(&a.d_weights[0].data), vec![0, 0]);
    assert_eq!(raws(&a.d_biases[0].data), vec![0]);
    assert!(a.d_weights[0].has_shape(1, 2));
    assert!(a.d_biases[0].has_shape(1, 1));
}

#[test]
fn layer_widths_are_checked() {
    assert!(valid_layers(&[2, 3, 1]));
    assert!(valid_layers(&[1, 1]));
    assert!(valid_layers(&[0, 5, 0]));
    assert!(!valid_layers(&[]));
    assert!(!valid_layers(&[7]));
    assert!(!valid_layers(&[usize::MAX, 2]));
    assert!(!valid_layers(&[2, 3, usize::MAX]));
}
