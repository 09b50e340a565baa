use presence_dimmer::mapper::{PixelBox, PIXEL_LIMIT};
use presence_dimmer::suppress::{boxes_in_range, suppress, ScoredBox};

fn item(x: i64, y: i64, width: i64, height: i64, score: i64) -> ScoredBox {
    ScoredBox { bbox: PixelBox { x, y, width, height }, score }
}

#[test]
fn empty_input_gives_empty_output() {
    assert_eq!(suppress(&vec![], 0, 1_000), Vec::<usize>::new());
}

#[test]
fn overlapping_pair_keeps_the_higher_score() {
    let items = vec![item(0, 0, 10, 10, 50), item(1, 1, 10, 10, 80)];
    assert_eq!(suppress(&items, 10, 1_000), vec![1]);
    let swapped = vec![item(1, 1, 10, 10, 80), item(0, 0, 10, 10, 50)];
    assert_eq!(suppress(&swapped, 10, 1_000), vec![0]);
}

#[test]
fn disjoint_pair_keeps_both() {
    let items = vec![item(0, 0, 10, 10, 50), item(100, 100, 10, 10, 80)];
    assert_eq!(suppress(&items, 10, 1_000), vec![1, 0]);
    let equal = vec![item(0, 0, 10, 10, 50), item(100, 100, 10, 10, 50)];
    assert_eq!(suppress(&equal, 10, 1_000), vec![0, 1]);
}

#[test]
fn output_is_ordered_by_descending_score() {
    let items = vec![
        item(0, 0, 10, 10, 30),
        item(100, 0, 10, 10, 90),
        item(200, 0, 10, 10, 10),
        item(300, 0, 10, 10, 60),
    ];
    assert_eq!(suppress(&items, 0, 1_000), vec![1, 3, 0, 2]);
}

#[test]
fn equal_scores_keep_their_input_order() {
    let items = vec![item(0, 0, 10, 10, 7), item(100, 0, 10, 10, 7), item(200, 0, 10, 10, 7)];
    assert_eq!(suppress(&items, 0, 1_000), vec![0, 1, 2]);
    let stacked = vec![item(0, 0, 10, 10, 7), item(0, 0, 10, 10, 7)];
    assert_eq!(suppress(&stacked, 0, 1_000), vec![0]);
}

#[test]
fn scores_below_the_threshold_are_discarded() {
    let items = vec![item(0, 0, 10, 10, 9), item(100, 0, 10, 10, 10), item(200, 0, 10, 10, 11)];
    assert_eq!(suppress(&items, 10, 1_000), vec![2, 1]);
    assert_eq!(suppress(&items, 12, 1_000), Vec::<usize>::new());
}

#[test]
fn a_discarded_box_suppresses_nothing() {
    // The first box would cover the second, but it is below the threshold.
    let items = vec![item(0, 0, 10, 10, 5), item(1, 1, 10, 10, 50)];
    assert_eq!(suppress(&items, 10, 1_000), vec![1]);
    let reversed = vec![item(0, 0, 10, 10, 50), item(1, 1, 10, 10, 5)];
    assert_eq!(suppress(&reversed, 10, 1_000), vec![0]);
}

#[test]
fn a_suppressed_box_suppresses_nothing() {
    // 0 covers 1, 1 covers 2, but 0 and 2 are apart: 2 survives.
    let items = vec![item(0, 0, 10, 10, 90), item(6, 0, 10, 10, 80), item(12, 0, 10, 10, 70)];
    assert_eq!(suppress(&items, 0, 2_000), vec![0, 2]);
}

#[test]
fn suppression_is_greedy_by_rank() {
    // Taken by index, 0 would fall to 1; taken by rank, 1 falls to 2 first
    // and 0 is kept.
    let items = vec![item(0, 0, 10, 10, 50), item(6, 0, 10, 10, 60), item(12, 0, 10, 10, 70)];
    assert_eq!(suppress(&items, 0, 2_000), vec![2, 0]);
}

#[test]
fn overlap_at_the_threshold_does_not_suppress() {
    // Intersection 50, union 150.
    let items = vec![item(0, 0, 10, 10, 90), item(5, 0, 10, 10, 80)];
    assert_eq!(suppress(&items, 0, 3_333), vec![0]);
    assert_eq!(suppress(&items, 0, 3_334), vec![0, 1]);
}

#[test]
fn many_copies_collapse_to_one() {
    let items: Vec<ScoredBox> = (0..50).map(|i| item(0, 0, 10, 10, i)).collect();
    assert_eq!(suppress(&items, 0, 1_000), vec![49]);
    let apart: Vec<ScoredBox> = (0..50).map(|i| item(20 * i, 0, 10, 10, i)).collect();
    let kept = suppress(&apart, 25, 1_000);
    assert_eq!(kept, (25..50).rev().map(|i| i as usize).collect::<Vec<usize>>());
}

#[test]
fn range_of_all_boxes_is_checked() {
    assert!(boxes_in_range(&vec![]));
    assert!(boxes_in_range(&vec![item(0, 0, 10, 10, 1), item(-PIXEL_LIMIT, PIXEL_LIMIT, 0, 0, 1)]));
    assert!(!boxes_in_range(&vec![item(0, 0, 10, 10, 1), item(0, 0, PIXEL_LIMIT + 1, 0, 1)]));
    assert!(!boxes_in_range(&vec![item(0, -PIXEL_LIMIT - 1, 10, 10, 1)]));
}
