use feedforward::bits::{less_than_bits, nan_bits, order_key, positive_bits};
use feedforward::ranking::{correct_prediction, correct_predictions, index_of_max, row_is_ordered, row_max};

fn row(values: &[f32]) -> Vec<u32> {
    values.iter().map(|v| v.to_bits()).collect()
}

#[test]
fn accuracy_counting_example() {
    let predictions = vec![row(&[0.7, 0.3]), row(&[0.2, 0.8])];
    let targets = vec![row(&[1.0, 0.0]), row(&[0.0, 1.0])];
    assert_eq!(correct_predictions(&predictions, &targets), 2);
}

#[test]
fn accuracy_counts_only_agreeing_rows() {
    let predictions = vec![row(&[0.7, 0.3]), row(&[0.6, 0.4]), row(&[0.1, 0.9])];
    let targets = vec![row(&[1.0, 0.0]), row(&[0.0, 1.0]), row(&[1.0, 0.0])];
    assert_eq!(correct_predictions(&predictions, &targets), 1);
}

#[test]
fn accuracy_of_empty_batch_is_zero() {
    assert_eq!(correct_predictions(&Vec::new(), &Vec::new()), 0);
}

#[test]
fn argmax_picks_last_of_equal_largest() {
    assert_eq!(index_of_max(&row(&[0.5, 0.5, 0.1])), 1);
    assert_eq!(index_of_max(&row(&[3.0, -1.0, 3.0, 2.0])), 2);
    assert_eq!(index_of_max(&row(&[-2.0, -1.0, -3.0])), 1);
}

#[test]
fn argmax_treats_zeros_as_equal() {
    assert_eq!(index_of_max(&row(&[0.0, -0.0])), 1);
    assert_eq!(index_of_max(&row(&[-0.0, 0.0])), 1);
}

#[test]
fn single_prediction_agreement() {
    assert!(correct_prediction(&row(&[0.1, 0.2, 0.7]), &row(&[0.0, 0.0, 1.0])));
    assert!(!correct_prediction(&row(&[0.8, 0.2, 0.0]), &row(&[0.0, 0.0, 1.0])));
}

#[test]
fn order_key_follows_float_order() {
    let values = [f32::NEG_INFINITY, -3.5, -1.0, -1e-30, 0.0, 1e-30, 0.25, 2.0, f32::INFINITY];
    for w in values.windows(2) {
        assert!(order_key(w[0].to_bits()) < order_key(w[1].to_bits()));
        assert!(less_than_bits(w[0].to_bits(), w[1].to_bits()));
        assert!(!less_than_bits(w[1].to_bits(), w[0].to_bits()));
    }
    assert_eq!(order_key((-0.0f32).to_bits()), order_key(0.0f32.to_bits()));
}

#[test]
fn nan_compares_false() {
    let nan = f32::NAN.to_bits();
    assert!(nan_bits(nan));
    assert!(!nan_bits(f32::INFINITY.to_bits()));
    assert!(!less_than_bits(nan, 1.0f32.to_bits()));
    assert!(!less_than_bits(1.0f32.to_bits(), nan));
    assert!(!positive_bits(nan));
}

#[test]
fn positive_test_matches_float() {
    for v in [-2.0f32, -0.0, 0.0, 1e-40, 3.0, f32::INFINITY, f32::NEG_INFINITY] {
        assert_eq!(positive_bits(v.to_bits()), v > 0.0);
    }
}

#[test]
fn row_max_ignores_nan() {
    let m = row_max(&row(&[1.0, f32::NAN, 4.0, -2.0]));
    assert_eq!(f32::from_bits(m), 4.0);
    let m = row_max(&row(&[-5.0, -3.0]));
    assert_eq!(f32::from_bits(m), -3.0);
    let m = row_max(&row(&[f32::NAN]));
    assert_eq!(f32::from_bits(m), f32::NEG_INFINITY);
    let m = row_max(&Vec::new());
    assert_eq!(f32::from_bits(m), f32::NEG_INFINITY);
}

#[test]
fn ordered_rows_hold_no_nan() {
    assert!(row_is_ordered(&row(&[1.0, -1.0, f32::INFINITY])));
    assert!(!row_is_ordered(&row(&[1.0, f32::NAN])));
    assert!(row_is_ordered(&Vec::new()));
}
