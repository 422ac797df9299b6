use feedforward::batching::batch_bounds;

#[test]
fn ten_rows_by_four_give_two_batches() {
    let b = batch_bounds(10, 4);
    assert_eq!(b, vec![(0, 4), (4, 8)]);
    let consumed: usize = b.iter().map(|(s, e)| e - s).sum();
    assert_eq!(consumed, 8);
    assert!(b.iter().all(|(_, e)| *e <= 8));
}

#[test]
fn exact_multiple_uses_every_row() {
    assert_eq!(batch_bounds(6, 3), vec![(0, 3), (3, 6)]);
}

#[test]
fn zero_batch_size_gives_no_batch() {
    assert!(batch_bounds(10, 0).is_empty());
}

#[test]
fn batch_larger_than_dataset_gives_no_batch() {
    assert!(batch_bounds(3, 4).is_empty());
    assert!(batch_bounds(0, 4).is_empty());
}

#[test]
fn batch_of_one_row_each() {
    assert_eq!(batch_bounds(3, 1), vec![(0, 1), (1, 2), (2, 3)]);
}

#[test]
fn largest_sizes_do_not_overflow() {
    assert_eq!(batch_bounds(usize::MAX, usize::MAX), vec![(0, usize::MAX)]);
    assert_eq!(batch_bounds(usize::MAX, usize::MAX / 2 + 1).len(), 1);
}
