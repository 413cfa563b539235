use ambilight::offsets::{precompute_region_indices, region_indices};
use ambilight::regions::{build_regions, LedLayout, LedRegion};

#[test]
fn two_by_two_region_in_a_frame_four_wide() {
    let region = LedRegion { x1: 1, y1: 1, x2: 3, y2: 3 };
    let table = region_indices(&region, 4);
    assert_eq!(table, vec![20, 24, 36, 40]);
    assert_eq!(table.len(), 2 * 2);
    assert!(table.iter().all(|o| o % 4 == 0));
    assert!(table[0] < table[1] && table[2] < table[3]);
    assert_eq!(table[2] - table[0], 4 * 4);
    assert_eq!(table[3] - table[1], 4 * 4);
}

#[test]
fn empty_regions_have_empty_tables() {
    assert!(region_indices(&LedRegion { x1: 2, y1: 0, x2: 2, y2: 5 }, 10).is_empty());
    assert!(region_indices(&LedRegion { x1: 0, y1: 3, x2: 5, y2: 3 }, 10).is_empty());
    assert!(region_indices(&LedRegion { x1: 5, y1: 0, x2: 2, y2: 5 }, 10).is_empty());
    assert!(region_indices(&LedRegion { x1: 0, y1: 9, x2: 50, y2: 2 }, 10).is_empty());
}

#[test]
fn tables_keep_the_order_of_the_regions() {
    let regions = vec![
        LedRegion { x1: 0, y1: 0, x2: 1, y2: 1 },
        LedRegion { x1: 0, y1: 0, x2: 0, y2: 0 },
        LedRegion { x1: 1, y1: 0, x2: 3, y2: 1 },
        LedRegion { x1: 2, y1: 1, x2: 3, y2: 3 },
    ];
    let tables = precompute_region_indices(&regions, 3);
    assert_eq!(tables, vec![vec![0], vec![], vec![4, 8], vec![20, 32]]);
}

#[test]
fn whole_screen_lists_every_pixel_once() {
    let table = region_indices(&LedRegion { x1: 0, y1: 0, x2: 3, y2: 2 }, 3);
    assert_eq!(table, vec![0, 4, 8, 12, 16, 20]);
}

#[test]
fn offsets_of_built_regions_stay_inside_the_frame() {
    let layout = LedLayout {
        top_led_count: 4,
        left_led_count: 3,
        right_led_count: 3,
        bottom_left_led_count: 2,
        bottom_right_led_count: 2,
        offset: 10,
        invert_direction: true,
        pixel_thickness: 20,
    };
    let (w, h) = (31usize, 17usize);
    let regions = build_regions(&layout, w, h);
    let tables = precompute_region_indices(&regions, w);
    assert_eq!(tables.len(), regions.len());
    for (region, table) in regions.iter().zip(tables.iter()) {
        assert_eq!(table.len(), (region.x2 - region.x1) * (region.y2 - region.y1));
        for o in table.iter() {
            assert!(o + 4 <= w * h * 4);
        }
    }
}
