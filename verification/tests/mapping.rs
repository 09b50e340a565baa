use presence_dimmer::mapper::{map_box, NetworkInput, PixelBox, PIXEL_LIMIT};
use presence_dimmer::postprocess::MatInfo;
use presence_dimmer::overlap::exceeds_overlap;
use presence_dimmer::tensor::NetBox;

const NET: NetworkInput = NetworkInput { width: 640, height: 640 };

fn px(x: i64, y: i64, width: i64, height: i64) -> PixelBox {
    PixelBox { x, y, width, height }
}

#[test]
fn maps_the_centre_box_into_a_larger_frame() {
    let b = NetBox { cx: 3_200_000, cy: 3_200_000, w: 1_000_000, h: 1_000_000 };
    let p = map_box(&b, &MatInfo { width: 1280, height: 960 }, &NET);
    assert_eq!(p, px(540, 405, 200, 150));
}

#[test]
fn identity_scale_keeps_whole_pixels() {
    let b = NetBox { cx: 1_000_000, cy: 2_000_000, w: 400_000, h: 600_000 };
    let p = map_box(&b, &MatInfo { width: 640, height: 640 }, &NET);
    assert_eq!(p, px(80, 170, 40, 60));
}

#[test]
fn each_quantity_is_rounded_by_itself() {
    // Corner 0.5 and size 1.5 round to 1 and 2: the far edge lands on 3,
    // where rounding the edge itself (2.0) would have given 2.
    let b = NetBox { cx: 12_500, cy: 12_500, w: 15_000, h: 15_000 };
    let p = map_box(&b, &MatInfo { width: 1, height: 1 }, &NetworkInput { width: 1, height: 1 });
    assert_eq!(p, px(1, 1, 2, 2));
}

#[test]
fn halves_round_away_from_zero_on_both_sides() {
    let net = NetworkInput { width: 1, height: 1 };
    let frame = MatInfo { width: 1, height: 1 };
    let up = map_box(&NetBox { cx: 25_000, cy: 24_999, w: 0, h: 0 }, &frame, &net);
    assert_eq!((up.x, up.y), (3, 2));
    let down = map_box(&NetBox { cx: -25_000, cy: -24_999, w: 0, h: 0 }, &frame, &net);
    assert_eq!((down.x, down.y), (-3, -2));
    let size = map_box(&NetBox { cx: 0, cy: 0, w: 5_000, h: -5_000 }, &frame, &net);
    assert_eq!((size.width, size.height), (1, -1));
}

#[test]
fn boxes_are_not_clamped_to_the_frame() {
    let b = NetBox { cx: 0, cy: 6_400_000, w: 2_000_000, h: 2_000_000 };
    let p = map_box(&b, &MatInfo { width: 640, height: 640 }, &NET);
    assert_eq!(p, px(-100, 540, 200, 200));
    assert!(p.y + p.height > 640);
}

#[test]
fn network_resolution_is_a_parameter() {
    let b = NetBox { cx: 1_600_000, cy: 1_600_000, w: 800_000, h: 800_000 };
    let p = map_box(&b, &MatInfo { width: 640, height: 480 }, &NetworkInput { width: 320, height: 320 });
    assert_eq!(p, px(240, 180, 160, 120));
    let q = map_box(&b, &MatInfo { width: 640, height: 480 }, &NetworkInput { width: 640, height: 320 });
    assert_eq!(q, px(120, 180, 80, 120));
}

#[test]
fn an_empty_frame_maps_everything_to_zero() {
    let b = NetBox { cx: 3_200_000, cy: 3_200_000, w: 1_000_000, h: 1_000_000 };
    assert_eq!(map_box(&b, &MatInfo { width: 0, height: 0 }, &NET), px(0, 0, 0, 0));
}

#[test]
fn extreme_inputs_stay_within_the_pixel_limit() {
    let net = NetworkInput { width: 1, height: 1 };
    let frame = MatInfo { width: u32::MAX, height: u32::MAX };
    let b = NetBox { cx: i32::MAX, cy: i32::MIN, w: i32::MIN, h: i32::MAX };
    let p = map_box(&b, &frame, &net);
    assert!(p.is_in_range());
    // (2 * cx - w) * frame / (2 * UNIT), exactly.
    let corner = (2 * (i32::MAX as i128) - (i32::MIN as i128)) * (u32::MAX as i128);
    assert_eq!(p.x as i128, (2 * corner + 20_000) / 40_000);
    assert!(!px(PIXEL_LIMIT + 1, 0, 0, 0).is_in_range());
    assert!(px(PIXEL_LIMIT, -PIXEL_LIMIT, PIXEL_LIMIT, -PIXEL_LIMIT).is_in_range());
}

#[test]
fn overlap_of_identical_boxes_is_one() {
    let a = px(0, 0, 10, 10);
    assert!(exceeds_overlap(&a, &a, 9_999));
    assert!(!exceeds_overlap(&a, &a, 10_000));
}

#[test]
fn overlap_is_compared_exactly() {
    // Intersection 50, union 150: a ratio of one third.
    let a = px(0, 0, 10, 10);
    let b = px(5, 0, 10, 10);
    assert!(exceeds_overlap(&a, &b, 3_333));
    assert!(!exceeds_overlap(&a, &b, 3_334));
    assert!(exceeds_overlap(&b, &a, 3_333));
    // Intersection 25, union 100: exactly one quarter, which is not more.
    let c = px(0, 0, 5, 10);
    let d = px(0, 0, 10, 10);
    let e = px(0, 0, 10, 5);
    assert!(!exceeds_overlap(&c, &e, 3_334));
    assert!(exceeds_overlap(&c, &d, 4_999));
    assert!(!exceeds_overlap(&c, &d, 5_000));
}

#[test]
fn touching_and_distant_boxes_do_not_overlap() {
    let a = px(0, 0, 10, 10);
    assert!(!exceeds_overlap(&a, &px(10, 0, 10, 10), 0));
    assert!(!exceeds_overlap(&a, &px(100, 100, 10, 10), 0));
    assert!(exceeds_overlap(&a, &px(9, 9, 10, 10), 0));
}

#[test]
fn boxes_without_extent_cover_nothing() {
    let a = px(0, 0, 10, 10);
    assert!(!exceeds_overlap(&a, &px(2, 2, -5, 5), 0));
    assert!(!exceeds_overlap(&a, &px(2, 2, 0, 5), 0));
    assert!(!exceeds_overlap(&px(0, 0, 0, 0), &px(0, 0, 0, 0), 0));
    assert!(!exceeds_overlap(&px(0, 0, -3, -3), &px(0, 0, -3, -3), -1));
}

#[test]
fn a_negative_threshold_is_exceeded_by_any_covered_pair() {
    let a = px(0, 0, 10, 10);
    assert!(exceeds_overlap(&a, &px(100, 100, 10, 10), -1));
    assert!(exceeds_overlap(&a, &px(100, 100, 0, 0), -1));
    assert!(!exceeds_overlap(&px(1, 1, 0, 0), &px(100, 100, 0, 0), -1));
}

#[test]
fn overlap_of_the_largest_boxes_does_not_overflow() {
    let a = px(-PIXEL_LIMIT, -PIXEL_LIMIT, PIXEL_LIMIT, PIXEL_LIMIT);
    let b = px(-PIXEL_LIMIT, -PIXEL_LIMIT, PIXEL_LIMIT, PIXEL_LIMIT);
    assert!(exceeds_overlap(&a, &b, 9_999));
    assert!(!exceeds_overlap(&a, &b, i32::MAX));
    assert!(exceeds_overlap(&a, &b, i32::MIN));
    let c = px(0, 0, PIXEL_LIMIT, PIXEL_LIMIT);
    assert!(!exceeds_overlap(&a, &c, 0));
}

#[test]
fn network_input_needs_an_extent() {
    assert!(NET.is_valid());
    assert!(!NetworkInput { width: 0, height: 640 }.is_valid());
    assert!(!NetworkInput { width: 640, height: 0 }.is_valid());
    assert!(NetworkInput { width: 1, height: 1 }.is_valid());
}
