use ambilight::regions::{build_regions, create_led_regions, LedLayout, LedRegion};
use ambilight::rounding::{round_div_u128, segment_edge_px};

fn layout(top: usize, left: usize, right: usize, bottom_left: usize, bottom_right: usize) -> LedLayout {
    LedLayout {
        top_led_count: top,
        left_led_count: left,
        right_led_count: right,
        bottom_left_led_count: bottom_left,
        bottom_right_led_count: bottom_right,
        offset: 0,
        invert_direction: false,
        pixel_thickness: 10,
    }
}

fn rect(x1: usize, y1: usize, x2: usize, y2: usize) -> LedRegion {
    LedRegion { x1, y1, x2, y2 }
}

#[test]
fn round_div_rounds_to_nearest_and_halves_up() {
    assert_eq!(round_div_u128(0, 5), 0);
    assert_eq!(round_div_u128(1, 2), 1);
    assert_eq!(round_div_u128(5, 2), 3);
    assert_eq!(round_div_u128(7, 3), 2);
    assert_eq!(round_div_u128(8, 3), 3);
    assert_eq!(round_div_u128(9, 3), 3);
    assert_eq!(round_div_u128(u128::MAX - 1, 1), u128::MAX - 1);
}

#[test]
fn round_div_at_the_ends_of_the_range() {
    assert_eq!(round_div_u128(u128::MAX, 1), u128::MAX);
    assert_eq!(round_div_u128(u128::MAX, u128::MAX), 1);
    assert_eq!(round_div_u128(u128::MAX - 1, u128::MAX), 1);
    assert_eq!(round_div_u128(u128::MAX / 2, u128::MAX), 0);
    assert_eq!(round_div_u128(u128::MAX / 2 + 1, u128::MAX), 1);
    assert_eq!(round_div_u128(u128::MAX, 2), u128::MAX / 2 + 1);
}

#[test]
fn segment_edges_divide_a_span_evenly() {
    assert_eq!(segment_edge_px(100, 3, 0), 0);
    assert_eq!(segment_edge_px(100, 3, 1), 33);
    assert_eq!(segment_edge_px(100, 3, 2), 67);
    assert_eq!(segment_edge_px(100, 3, 3), 100);
    assert_eq!(segment_edge_px(5, 2, 1), 3);
    assert_eq!(segment_edge_px(usize::MAX, usize::MAX, usize::MAX), usize::MAX);
}

#[test]
fn region_count_is_the_sum_of_the_five_counts() {
    let l = layout(7, 3, 4, 2, 6);
    assert_eq!(create_led_regions(&l, 1920, 1080).len(), 22);
    assert_eq!(build_regions(&l, 1920, 1080).len(), 22);
}

#[test]
fn no_bottom_leds_gives_no_regions_at_all() {
    let l = layout(10, 5, 5, 0, 0);
    assert!(create_led_regions(&l, 1920, 1080).is_empty());
    assert!(build_regions(&l, 1920, 1080).is_empty());
}

#[test]
fn one_bottom_group_alone_is_enough() {
    let l = layout(0, 0, 0, 0, 2);
    let regions = build_regions(&l, 100, 50);
    assert_eq!(regions, vec![rect(0, 45, 50, 50), rect(50, 45, 100, 50)]);
    let l = layout(0, 0, 0, 2, 0);
    let regions = build_regions(&l, 100, 50);
    assert_eq!(regions, vec![rect(0, 45, 50, 50), rect(50, 45, 100, 50)]);
}

#[test]
fn every_region_lies_inside_the_screen() {
    let mut l = layout(7, 3, 4, 2, 6);
    l.offset = 35;
    l.pixel_thickness = 250;
    for &(w, h) in [(1920usize, 1080usize), (7, 3), (1, 1), (0, 0), (13, 1000)].iter() {
        let regions = build_regions(&l, w, h);
        assert_eq!(regions.len(), 22);
        for r in regions.iter() {
            assert!(r.x1 <= r.x2 && r.x2 <= w);
            assert!(r.y1 <= r.y2 && r.y2 <= h);
        }
    }
}

#[test]
fn huge_percentages_are_clamped() {
    let mut l = layout(1, 1, 1, 1, 1);
    l.offset = usize::MAX;
    l.pixel_thickness = usize::MAX;
    let regions = build_regions(&l, 100, 50);
    assert_eq!(
        regions,
        vec![
            // the gap swallows the bottom edge; the band covers the screen
            rect(100, 0, 100, 50),
            rect(0, 0, 100, 50),
            rect(0, 0, 100, 50),
            rect(0, 0, 100, 50),
            rect(0, 0, 0, 50),
        ]
    );
}

#[test]
fn traversal_order_runs_through_the_edges() {
    let l = layout(3, 4, 2, 5, 1);
    let regions = create_led_regions(&l, 120, 60);
    let expected = vec![
        // bottom-right group, left to right
        rect(100, 54, 120, 60),
        // right edge, bottom to top
        rect(114, 30, 120, 60),
        rect(114, 0, 120, 30),
        // top edge, right to left
        rect(80, 0, 120, 6),
        rect(40, 0, 80, 6),
        rect(0, 0, 40, 6),
        // left edge, top to bottom
        rect(0, 0, 6, 15),
        rect(0, 15, 6, 30),
        rect(0, 30, 6, 45),
        rect(0, 45, 6, 60),
        // bottom-left group, left to right
        rect(0, 54, 20, 60),
        rect(20, 54, 40, 60),
        rect(40, 54, 60, 60),
        rect(60, 54, 80, 60),
        rect(80, 54, 100, 60),
    ];
    assert_eq!(regions, expected);
}

#[test]
fn inversion_reverses_the_whole_list() {
    let mut l = layout(3, 4, 2, 5, 1);
    l.offset = 10;
    let forward = build_regions(&l, 120, 60);
    l.invert_direction = true;
    let inverted = build_regions(&l, 120, 60);
    let mut expected = forward.clone();
    expected.reverse();
    assert_eq!(inverted, expected);
    assert_ne!(inverted, forward);
    assert_eq!(create_led_regions(&l, 120, 60), forward);
}

#[test]
fn offset_opens_a_gap_between_the_bottom_groups() {
    let mut l = layout(0, 0, 0, 2, 2);
    l.offset = 20;
    // gap 20, effective width 80, 40 for each group, right group from 60
    let regions = create_led_regions(&l, 100, 50);
    assert_eq!(
        regions,
        vec![
            rect(60, 45, 80, 50),
            rect(80, 45, 100, 50),
            rect(0, 45, 20, 50),
            rect(20, 45, 40, 50),
        ]
    );
}

#[test]
fn group_widths_are_rounded_independently() {
    // effective width 5 split 1:1 gives 3 and 3 (2.5 rounds up on both sides)
    let l = layout(0, 0, 0, 1, 1);
    let regions = create_led_regions(&l, 5, 10);
    assert_eq!(regions, vec![rect(3, 9, 5, 10), rect(0, 9, 3, 10)]);
}

#[test]
fn right_edge_rounds_from_the_top() {
    let l = layout(0, 0, 2, 1, 0);
    let regions = create_led_regions(&l, 10, 5);
    assert_eq!(regions[0], rect(10, 3, 10, 5));
    assert_eq!(regions[1], rect(10, 0, 10, 3));
}

#[test]
fn end_to_end_layout_on_a_small_screen() {
    let l = LedLayout {
        top_led_count: 10,
        left_led_count: 0,
        right_led_count: 0,
        bottom_left_led_count: 5,
        bottom_right_led_count: 5,
        offset: 0,
        invert_direction: false,
        pixel_thickness: 2,
    };
    let regions = build_regions(&l, 100, 50);
    assert_eq!(regions.len(), 20);
    for i in 0..5 {
        assert_eq!(regions[i], rect(50 + 10 * i, 49, 60 + 10 * i, 50));
    }
    for i in 0..10 {
        assert_eq!(regions[5 + i], rect(90 - 10 * i, 0, 100 - 10 * i, 1));
    }
    for i in 0..5 {
        assert_eq!(regions[15 + i], rect(10 * i, 49, 10 * i + 10, 50));
    }
}
