use feedforward::masking::{apply_mask, dropout_keep, rectify, rectify_backward};
use rand::Rng;

fn row(values: &[f32]) -> Vec<u32> {
    values.iter().map(|v| v.to_bits()).collect()
}

fn floats(bits: &[u32]) -> Vec<f32> {
    bits.iter().map(|b| f32::from_bits(*b)).collect()
}

fn unit_draws(n: usize) -> Vec<u32> {
    let mut rng = rand::thread_rng();
    (0..n).map(|_| rng.gen::<f32>().to_bits()).collect()
}

#[test]
fn rectify_clamps_non_positive_to_zero() {
    let out = rectify(&row(&[-1.5, 0.0, 2.5, -0.0, 7.0]));
    assert_eq!(floats(&out), vec![0.0, 0.0, 2.5, 0.0, 7.0]);
    assert_eq!(out[3], 0);
}

#[test]
fn rectify_backward_zeroes_where_input_was_not_positive() {
    let cached = row(&[-1.0, 0.0, 3.0, 0.5, -0.0]);
    let grad = row(&[10.0, 20.0, 30.0, -40.0, 50.0]);
    let out = rectify_backward(&grad, &cached);
    assert_eq!(floats(&out), vec![0.0, 0.0, 30.0, -40.0, 0.0]);
}

#[test]
fn dropout_rate_zero_is_identity() {
    let x = row(&[1.0, -2.0, 3.5, 0.25, -7.0, 9.0]);
    let keep = dropout_keep(&unit_draws(x.len()), 0.0f32.to_bits());
    assert!(keep.iter().all(|k| *k));
    assert_eq!(apply_mask(&x, &keep), x);
    let grad = row(&[0.5, 0.5, -0.5, 1.0, 2.0, 3.0]);
    assert_eq!(apply_mask(&grad, &keep), grad);
}

#[test]
fn dropout_rate_one_zeroes_everything() {
    let x = row(&[1.0, -2.0, 3.5, 0.25, -7.0, 9.0]);
    let keep = dropout_keep(&unit_draws(x.len()), 1.0f32.to_bits());
    assert!(keep.iter().all(|k| !*k));
    assert_eq!(floats(&apply_mask(&x, &keep)), vec![0.0; 6]);
    let grad = row(&[0.5, 0.5, -0.5, 1.0, 2.0, 3.0]);
    assert_eq!(floats(&apply_mask(&grad, &keep)), vec![0.0; 6]);
}

#[test]
fn dropout_keeps_draws_not_below_rate() {
    let draws = row(&[0.1, 0.5, 0.2, 0.9, 0.0]);
    let keep = dropout_keep(&draws, 0.2f32.to_bits());
    assert_eq!(keep, vec![false, true, true, true, false]);
}

#[test]
fn mask_keeps_flagged_units() {
    let x = row(&[1.0, 2.0, 3.0]);
    let out = apply_mask(&x, &vec![true, false, true]);
    assert_eq!(floats(&out), vec![1.0, 0.0, 3.0]);
}
