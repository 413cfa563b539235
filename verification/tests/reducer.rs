use ambilight::reducer::{average_color, reduce_frame, reduce_region, ColorCurve};

fn identity() -> [u8; 256] {
    let mut table = [0u8; 256];
    for i in 0..256 {
        table[i] = i as u8;
    }
    table
}

fn plain_curve() -> ColorCurve {
    ColorCurve { red: identity(), green: identity(), blue: identity() }
}

fn odd_curve() -> ColorCurve {
    let mut red = [0u8; 256];
    let mut green = [0u8; 256];
    let mut blue = [0u8; 256];
    for i in 0..256 {
        red[i] = (i / 2) as u8;
        green[i] = (255 - i) as u8;
        blue[i] = if i < 128 { 0 } else { 255 };
    }
    ColorCurve { red, green, blue }
}

#[test]
fn mean_reads_blue_green_red_and_skips_alpha() {
    // two pixels, BGRA
    let frame = [10u8, 20, 30, 255, 20, 40, 60, 255];
    assert_eq!(average_color(&frame, &[0, 4]), Some((45, 30, 15)));
    assert_eq!(average_color(&frame, &[4]), Some((60, 40, 20)));
}

#[test]
fn mean_truncates() {
    let frame = [1u8, 1, 1, 0, 2, 2, 2, 0, 2, 3, 4, 0];
    assert_eq!(average_color(&frame, &[0, 4]), Some((1, 1, 1)));
    assert_eq!(average_color(&frame, &[0, 4, 8]), Some((2, 2, 1)));
}

#[test]
fn mean_of_nothing_is_none() {
    let frame = [9u8; 16];
    assert_eq!(average_color(&frame, &[]), None);
}

#[test]
fn bright_samples_do_not_overflow() {
    let frame = [255u8; 4];
    let offsets = vec![0usize; 100_000];
    assert_eq!(average_color(&frame, &offsets), Some((255, 255, 255)));
}

#[test]
fn empty_table_gives_black() {
    let frame = [200u8; 16];
    assert_eq!(reduce_region(&frame, &[], &plain_curve()), (0, 0, 0));
    // even under a correction that lifts black
    assert_eq!(reduce_region(&frame, &[], &odd_curve()), (0, 0, 0));
}

#[test]
fn black_region_gives_black() {
    let mut frame = [0u8; 16];
    // alpha is not sampled
    frame[3] = 255;
    frame[7] = 255;
    assert_eq!(reduce_region(&frame, &[0, 4, 8, 12], &plain_curve()), (0, 0, 0));
}

#[test]
fn correction_is_looked_up_per_channel() {
    let frame = [200u8, 100, 50, 255];
    assert_eq!(reduce_region(&frame, &[0], &plain_curve()), (50, 100, 200));
    assert_eq!(reduce_region(&frame, &[0], &odd_curve()), (25, 155, 255));
}

#[test]
fn frame_colours_keep_the_order_of_the_tables() {
    let frame = [1u8, 2, 3, 0, 4, 5, 6, 0, 7, 8, 9, 0];
    let tables = vec![vec![8usize], vec![], vec![0, 4], vec![4]];
    let colors = reduce_frame(&frame, &tables, &plain_curve());
    assert_eq!(colors, vec![(9, 8, 7), (0, 0, 0), (4, 3, 2), (6, 5, 4)]);
}
