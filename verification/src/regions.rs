//! From LED counts per screen edge to one sampling rectangle per LED, in the
//! order in which the strip is wired.

use vstd::prelude::*;
use crate::rounding::{
    lemma_round_div_bounds, lemma_segment_edges_ordered, lemma_word_product, lesser, round_div,
    round_div_u128, segment_edge, segment_edge_px,
};

verus! {

/// Where the LEDs sit round the screen, and how deep the sampled band is.
#[derive(Clone, Copy, Debug, PartialEq, Eq, Structural)]
pub struct LedLayout {
    /// LEDs along the top edge.
    pub top_led_count: usize,
    /// LEDs along the left edge.
    pub left_led_count: usize,
    /// LEDs along the right edge.
    pub right_led_count: usize,
    /// LEDs of the bottom edge left of the gap.
    pub bottom_left_led_count: usize,
    /// LEDs of the bottom edge right of the gap.
    pub bottom_right_led_count: usize,
    /// Width of the gap in the bottom edge, in percent of the screen width.
    pub offset: usize,
    /// Whether the strip is wired the other way round.
    pub invert_direction: bool,
    /// Depth of the sampled band, in percent of the screen height.
    pub pixel_thickness: usize,
}

/// The screen rectangle sampled for one LED; `x2` and `y2` are exclusive.
#[derive(Clone, Copy, Debug, PartialEq, Eq, Structural)]
pub struct LedRegion {
    pub x1: usize,
    pub y1: usize,
    pub x2: usize,
    pub y2: usize,
}

impl LedRegion {
    /// The rectangle lies inside a screen of `width` by `height` pixels and its
    /// corners are in order.
    pub open spec fn within(self, width: usize, height: usize) -> bool {
        &&& self.x1 <= self.x2 <= width
        &&& self.y1 <= self.y2 <= height
    }
}

/// The number of LEDs on the strip.
pub open spec fn total_leds(layout: LedLayout) -> int {
    layout.bottom_right_led_count + layout.right_led_count + layout.top_led_count
        + layout.left_led_count + layout.bottom_left_led_count
}

/// The number of LEDs along the bottom edge.
pub open spec fn bottom_total(layout: LedLayout) -> int {
    layout.bottom_left_led_count + layout.bottom_right_led_count
}

/// Depth of the sampled band in pixels, never more than `side`, the length of
/// the screen across the band.
pub open spec fn band_depth(layout: LedLayout, height: int, side: int) -> int {
    lesser(height * layout.pixel_thickness / 100, side)
}

/// Width of the gap in the bottom edge, in pixels.
pub open spec fn offset_pixels(layout: LedLayout, width: int) -> int {
    width * layout.offset / 100
}

/// What is left of the bottom edge once the gap is taken out, never negative.
pub open spec fn effective_width(layout: LedLayout, width: int) -> int {
    if offset_pixels(layout, width) <= width {
        width - offset_pixels(layout, width)
    } else {
        0
    }
}

/// The bottom-left group's share of the effective width, in proportion to its
/// LED count and rounded to the nearest pixel.
pub open spec fn left_group_width(layout: LedLayout, width: int) -> int {
    round_div(layout.bottom_left_led_count * effective_width(layout, width), bottom_total(layout))
}

/// The bottom-right group's share, rounded on its own.
pub open spec fn right_group_width(layout: LedLayout, width: int) -> int {
    round_div(layout.bottom_right_led_count * effective_width(layout, width), bottom_total(layout))
}

/// Where the bottom-right group begins: after the left group and the gap.
pub open spec fn right_group_start(layout: LedLayout, width: int) -> int {
    left_group_width(layout, width) + offset_pixels(layout, width)
}

/// The `i`-th rectangle of the bottom-right group, counted left to right.
pub open spec fn bottom_right_region(layout: LedLayout, width: usize, height: usize, i: int) -> LedRegion {
    let start = right_group_start(layout, width as int);
    let span = right_group_width(layout, width as int);
    let n = layout.bottom_right_led_count as int;
    LedRegion {
        x1: lesser(start + segment_edge(span, n, i), width as int) as usize,
        y1: (height - band_depth(layout, height as int, height as int)) as usize,
        x2: lesser(start + segment_edge(span, n, i + 1), width as int) as usize,
        y2: height,
    }
}

/// The `i`-th rectangle of the right edge, counted from the bottom up.
pub open spec fn right_region(layout: LedLayout, width: usize, height: usize, i: int) -> LedRegion {
    let n = layout.right_led_count as int;
    LedRegion {
        x1: (width - band_depth(layout, height as int, width as int)) as usize,
        y1: lesser(segment_edge(height as int, n, n - 1 - i), height as int) as usize,
        x2: width,
        y2: lesser(segment_edge(height as int, n, n - i), height as int) as usize,
    }
}

/// The `i`-th rectangle of the top edge, counted from the right.
pub open spec fn top_region(layout: LedLayout, width: usize, height: usize, i: int) -> LedRegion {
    let n = layout.top_led_count as int;
    LedRegion {
        x1: lesser(segment_edge(width as int, n, n - 1 - i), width as int) as usize,
        y1: 0,
        x2: lesser(segment_edge(width as int, n, n - i), width as int) as usize,
        y2: band_depth(layout, height as int, height as int) as usize,
    }
}

/// The `i`-th rectangle of the left edge, counted from the top down.
pub open spec fn left_region(layout: LedLayout, width: usize, height: usize, i: int) -> LedRegion {
    let n = layout.left_led_count as int;
    LedRegion {
        x1: 0,
        y1: lesser(segment_edge(height as int, n, i), height as int) as usize,
        x2: band_depth(layout, height as int, width as int) as usize,
        y2: lesser(segment_edge(height as int, n, i + 1), height as int) as usize,
    }
}

/// The `i`-th rectangle of the bottom-left group, counted left to right.
pub open spec fn bottom_left_region(layout: LedLayout, width: usize, height: usize, i: int) -> LedRegion {
    let span = left_group_width(layout, width as int);
    let n = layout.bottom_left_led_count as int;
    LedRegion {
        x1: lesser(segment_edge(span, n, i), width as int) as usize,
        y1: (height - band_depth(layout, height as int, height as int)) as usize,
        x2: lesser(segment_edge(span, n, i + 1), width as int) as usize,
        y2: height,
    }
}

/// The rectangle of the `k`-th LED in wiring order: the bottom-right group,
/// then the right edge, the top edge, the left edge and the bottom-left group.
pub open spec fn region_at(layout: LedLayout, width: usize, height: usize, k: int) -> LedRegion {
    let br = layout.bottom_right_led_count as int;
    let r = layout.right_led_count as int;
    let t = layout.top_led_count as int;
    let l = layout.left_led_count as int;
    if k < br {
        bottom_right_region(layout, width, height, k)
    } else if k < br + r {
        right_region(layout, width, height, k - br)
    } else if k < br + r + t {
        top_region(layout, width, height, k - br - r)
    } else if k < br + r + t + l {
        left_region(layout, width, height, k - br - r - t)
    } else {
        bottom_left_region(layout, width, height, k - br - r - t - l)
    }
}

/// All rectangles in wiring order, before any inversion. A layout without
/// LEDs on the bottom edge has none.
pub open spec fn forward_regions(layout: LedLayout, width: usize, height: usize) -> Seq<LedRegion> {
    if bottom_total(layout) == 0 {
        Seq::empty()
    } else {
        Seq::new(total_leds(layout) as nat, |k: int| region_at(layout, width, height, k))
    }
}

/// All rectangles in strip order: the wiring order, reversed as a whole where
/// the layout asks for it.
pub open spec fn strip_regions(layout: LedLayout, width: usize, height: usize) -> Seq<LedRegion> {
    if layout.invert_direction {
        forward_regions(layout, width, height).reverse()
    } else {
        forward_regions(layout, width, height)
    }
}

/// The same layout with the direction flag set to `invert`.
pub open spec fn with_direction(layout: LedLayout, invert: bool) -> LedLayout {
    LedLayout { invert_direction: invert, ..layout }
}

/// Both bottom groups are at most as wide as the effective width, which is at
/// most the screen's width.
pub proof fn lemma_group_widths(layout: LedLayout, width: usize)
    requires
        bottom_total(layout) > 0,
    ensures
        0 <= offset_pixels(layout, width as int),
        0 <= effective_width(layout, width as int) <= width,
        0 <= left_group_width(layout, width as int) <= effective_width(layout, width as int),
        0 <= right_group_width(layout, width as int) <= effective_width(layout, width as int),
{
    let ew = effective_width(layout, width as int);
    let bl = layout.bottom_left_led_count as int;
    let br = layout.bottom_right_led_count as int;
    assert(0 <= width * layout.offset) by (nonlinear_arith);
    assert(0 <= bl * ew <= ew * (bl + br) && 0 <= br * ew <= ew * (bl + br)) by (nonlinear_arith)
        requires
            0 <= ew,
            0 <= bl,
            0 <= br,
    ;
    lemma_round_div_bounds(bl * ew, bl + br, ew);
    lemma_round_div_bounds(br * ew, bl + br, ew);
}

/// Computes the band's depth in pixels, capped at `side`.
fn band_depth_px(layout: &LedLayout, height: usize, side: usize) -> (r: usize)
    ensures
        r == band_depth(*layout, height as int, side as int),
        r <= side,
{
    proof {
        lemma_word_product(height as int, layout.pixel_thickness as int);
    }
    let raw: u128 = (height as u128) * (layout.pixel_thickness as u128) / 100;
    if raw <= side as u128 {
        raw as usize
    } else {
        side
    }
}

/// Computes the gap's width in pixels.
fn offset_px(layout: &LedLayout, width: usize) -> (r: u128)
    ensures
        r == offset_pixels(*layout, width as int),
        r <= 0xFFFF_FFFF_FFFF_FFFE_0000_0000_0000_0001,
{
    proof {
        lemma_word_product(width as int, layout.offset as int);
    }
    (width as u128) * (layout.offset as u128) / 100
}

/// Computes the widths of the two bottom groups.
fn bottom_group_widths(layout: &LedLayout, width: usize) -> (r: (usize, usize))
    requires
        bottom_total(*layout) > 0,
    ensures
        r.0 == left_group_width(*layout, width as int),
        r.1 == right_group_width(*layout, width as int),
{
    let gap: u128 = offset_px(layout, width);
    let ew: usize = if gap <= width as u128 {
        width - (gap as usize)
    } else {
        0
    };
    let total: u128 = (layout.bottom_left_led_count as u128) + (layout.bottom_right_led_count as u128);
    proof {
        lemma_group_widths(*layout, width);
        lemma_word_product(layout.bottom_left_led_count as int, ew as int);
        lemma_word_product(layout.bottom_right_led_count as int, ew as int);
    }
    let left: u128 = round_div_u128((layout.bottom_left_led_count as u128) * (ew as u128), total);
    let right: u128 = round_div_u128((layout.bottom_right_led_count as u128) * (ew as u128), total);
    (left as usize, right as usize)
}

/// Adds a boundary to a group's start and caps the sum at the screen's width.
fn capped_sum(start: u128, edge: usize, width: usize) -> (r: usize)
    requires
        start <= 0xFFFF_FFFF_FFFF_FFFF_0000_0000_0000_0000,
    ensures
        r == lesser(start + edge, width as int),
{
    let sum: u128 = start + (edge as u128);
    if sum <= width as u128 {
        sum as usize
    } else {
        width
    }
}

/// Builds the rectangles in wiring order, without regard to the direction
/// flag.
#[verifier::loop_isolation(false)]
pub fn create_led_regions(layout: &LedLayout, width: usize, height: usize) -> (regions: Vec<LedRegion>)
    requires
        total_leds(*layout) <= usize::MAX,
    ensures
        regions@ == forward_regions(*layout, width, height),
{
    let mut regions: Vec<LedRegion> = Vec::new();
    let br: usize = layout.bottom_right_led_count;
    let rt: usize = layout.right_led_count;
    let tp: usize = layout.top_led_count;
    let lf: usize = layout.left_led_count;
    let bl: usize = layout.bottom_left_led_count;
    if bl == 0 && br == 0 {
        return regions;
    }
    let band_h: usize = band_depth_px(layout, height, height);
    let band_w: usize = band_depth_px(layout, height, width);
    let widths: (usize, usize) = bottom_group_widths(layout, width);
    let gap: u128 = offset_px(layout, width);
    let start: u128 = (widths.0 as u128) + gap;

    let mut i: usize = 0;
    while i < br
        invariant
            i <= br,
            regions@.len() == i,
            forall|k: int| 0 <= k < regions@.len() ==> regions@[k] == region_at(*layout, width, height, k),
        decreases br - i,
    {
        let a: usize = segment_edge_px(widths.1, br, i);
        let b: usize = segment_edge_px(widths.1, br, i + 1);
        let region = LedRegion {
            x1: capped_sum(start, a, width),
            y1: height - band_h,
            x2: capped_sum(start, b, width),
            y2: height,
        };
        assert(region == bottom_right_region(*layout, width, height, i as int));
        regions.push(region);
        i += 1;
    }

    let mut i: usize = 0;
    while i < rt
        invariant
            i <= rt,
            regions@.len() == br + i,
            forall|k: int| 0 <= k < regions@.len() ==> regions@[k] == region_at(*layout, width, height, k),
        decreases rt - i,
    {
        let region = LedRegion {
            x1: width - band_w,
            y1: segment_edge_px(height, rt, rt - 1 - i),
            x2: width,
            y2: segment_edge_px(height, rt, rt - i),
        };
        assert(region == right_region(*layout, width, height, i as int));
        regions.push(region);
        i += 1;
    }

    let mut i: usize = 0;
    while i < tp
        invariant
            i <= tp,
            regions@.len() == br + rt + i,
            forall|k: int| 0 <= k < regions@.len() ==> regions@[k] == region_at(*layout, width, height, k),
        decreases tp - i,
    {
        let region = LedRegion {
            x1: segment_edge_px(width, tp, tp - 1 - i),
            y1: 0,
            x2: segment_edge_px(width, tp, tp - i),
            y2: band_h,
        };
        assert(region == top_region(*layout, width, height, i as int));
        regions.push(region);
        i += 1;
    }

    let mut i: usize = 0;
    while i < lf
        invariant
            i <= lf,
            regions@.len() == br + rt + tp + i,
            forall|k: int| 0 <= k < regions@.len() ==> regions@[k] == region_at(*layout, width, height, k),
        decreases lf - i,
    {
        let region = LedRegion {
            x1: 0,
            y1: segment_edge_px(height, lf, i),
            x2: band_w,
            y2: segment_edge_px(height, lf, i + 1),
        };
        assert(region == left_region(*layout, width, height, i as int));
        regions.push(region);
        i += 1;
    }

    let mut i: usize = 0;
    while i < bl
        invariant
            i <= bl,
            regions@.len() == br + rt + tp + lf + i,
            forall|k: int| 0 <= k < regions@.len() ==> regions@[k] == region_at(*layout, width, height, k),
        decreases bl - i,
    {
        let region = LedRegion {
            x1: segment_edge_px(widths.0, bl, i).min(width),
            y1: height - band_h,
            x2: segment_edge_px(widths.0, bl, i + 1).min(width),
            y2: height,
        };
        assert(region == bottom_left_region(*layout, width, height, i as int));
        regions.push(region);
        i += 1;
    }
    assert(regions@ =~= forward_regions(*layout, width, height));
    regions
}

/// Copies a list of rectangles back to front.
fn reversed(list: &Vec<LedRegion>) -> (r: Vec<LedRegion>)
    ensures
        r@ == list@.reverse(),
{
    let mut r: Vec<LedRegion> = Vec::new();
    let n: usize = list.len();
    let mut i: usize = 0;
    while i < n
        invariant
            n == list@.len(),
            i <= n,
            r@.len() == i,
            forall|k: int| 0 <= k < i ==> r@[k] == list@[n - 1 - k],
        decreases n - i,
    {
        r.push(list[n - 1 - i]);
        i += 1;
    }
    assert(r@ =~= list@.reverse());
    r
}

/// Builds the rectangles in strip order: the wiring order of
/// [`create_led_regions`], reversed as a whole where `invert_direction` is
/// set.
pub fn build_regions(layout: &LedLayout, width: usize, height: usize) -> (regions: Vec<LedRegion>)
    requires
        total_leds(*layout) <= usize::MAX,
    ensures
        regions@ == strip_regions(*layout, width, height),
        regions@.len() == if bottom_total(*layout) == 0 {
            0
        } else {
            total_leds(*layout)
        },
{
    let forward = create_led_regions(layout, width, height);
    if layout.invert_direction {
        reversed(&forward)
    } else {
        forward
    }
}

/// There is one rectangle per LED, or none at all where the bottom edge has
/// no LEDs.
pub proof fn lemma_region_count(layout: LedLayout, width: usize, height: usize)
    ensures
        strip_regions(layout, width, height).len() == if bottom_total(layout) == 0 {
            0
        } else {
            total_leds(layout)
        },
        forward_regions(layout, width, height).len() == strip_regions(layout, width, height).len(),
{
}

/// The rectangle of every LED lies inside the screen, with its corners in
/// order.
pub proof fn lemma_region_at_within(layout: LedLayout, width: usize, height: usize, k: int)
    requires
        bottom_total(layout) > 0,
        0 <= k < total_leds(layout),
    ensures
        region_at(layout, width, height, k).within(width, height),
{
    let br = layout.bottom_right_led_count as int;
    let r = layout.right_led_count as int;
    let t = layout.top_led_count as int;
    let l = layout.left_led_count as int;
    let bl = layout.bottom_left_led_count as int;
    lemma_group_widths(layout, width);
    assert(0 <= height * layout.pixel_thickness) by (nonlinear_arith);
    if k < br {
        lemma_segment_edges_ordered(right_group_width(layout, width as int), br, k, k + 1);
    } else if k < br + r {
        let i = k - br;
        lemma_segment_edges_ordered(height as int, r, r - 1 - i, r - i);
    } else if k < br + r + t {
        let i = k - br - r;
        lemma_segment_edges_ordered(width as int, t, t - 1 - i, t - i);
    } else if k < br + r + t + l {
        let i = k - br - r - t;
        lemma_segment_edges_ordered(height as int, l, i, i + 1);
    } else {
        let i = k - br - r - t - l;
        lemma_segment_edges_ordered(left_group_width(layout, width as int), bl, i, i + 1);
    }
}

/// Every rectangle of the strip satisfies `x1 <= x2 <= width` and
/// `y1 <= y2 <= height`, whatever the layout and the screen.
pub proof fn lemma_regions_within_screen(layout: LedLayout, width: usize, height: usize)
    ensures
        forall|k: int|
            0 <= k < strip_regions(layout, width, height).len() ==> (#[trigger] strip_regions(
                layout,
                width,
                height,
            )[k]).within(width, height),
{
    let fwd = forward_regions(layout, width, height);
    let all = strip_regions(layout, width, height);
    assert forall|k: int| 0 <= k < all.len() implies (#[trigger] all[k]).within(width, height) by {
        if layout.invert_direction {
            assert(all[k] == fwd[fwd.len() - 1 - k]);
            lemma_region_at_within(layout, width, height, fwd.len() - 1 - k);
        } else {
            lemma_region_at_within(layout, width, height, k);
        }
    }
}

/// The wiring order runs through the edges in a fixed sequence: first the
/// bottom-right group from left to right, then the right edge from the bottom
/// up, the top edge from right to left, the left edge from the top down, and
/// last the bottom-left group from left to right. Each index range holds the
/// rectangles of its edge, which touch that side of the screen.
pub proof fn lemma_traversal_order(layout: LedLayout, width: usize, height: usize, k: int)
    requires
        bottom_total(layout) > 0,
        0 <= k < total_leds(layout),
    ensures
        ({
            let fwd = forward_regions(layout, width, height);
            let br = layout.bottom_right_led_count as int;
            let r = layout.right_led_count as int;
            let t = layout.top_led_count as int;
            let l = layout.left_led_count as int;
            &&& k < br ==> fwd[k] == bottom_right_region(layout, width, height, k) && fwd[k].y2
                == height
            &&& br <= k < br + r ==> fwd[k] == right_region(layout, width, height, k - br)
                && fwd[k].x2 == width
            &&& br + r <= k < br + r + t ==> fwd[k] == top_region(layout, width, height, k - br - r)
                && fwd[k].y1 == 0
            &&& br + r + t <= k < br + r + t + l ==> fwd[k] == left_region(
                layout,
                width,
                height,
                k - br - r - t,
            ) && fwd[k].x1 == 0
            &&& br + r + t + l <= k ==> fwd[k] == bottom_left_region(
                layout,
                width,
                height,
                k - br - r - t - l,
            ) && fwd[k].y2 == height
        }),
{
}

/// Within an edge the rectangles follow one another in the edge's direction:
/// a later LED of a bottom group or of the left edge starts no earlier than
/// the one before it, and a later LED of the right or the top edge starts no
/// later.
pub proof fn lemma_direction_within_edge(layout: LedLayout, width: usize, height: usize, i: int, j: int)
    requires
        bottom_total(layout) > 0,
        0 <= i <= j,
    ensures
        j < layout.bottom_right_led_count ==> bottom_right_region(layout, width, height, i).x1
            <= bottom_right_region(layout, width, height, j).x1,
        j < layout.right_led_count ==> right_region(layout, width, height, i).y1 >= right_region(
            layout,
            width,
            height,
            j,
        ).y1,
        j < layout.top_led_count ==> top_region(layout, width, height, i).x1 >= top_region(
            layout,
            width,
            height,
            j,
        ).x1,
        j < layout.left_led_count ==> left_region(layout, width, height, i).y1 <= left_region(
            layout,
            width,
            height,
            j,
        ).y1,
        j < layout.bottom_left_led_count ==> bottom_left_region(layout, width, height, i).x1
            <= bottom_left_region(layout, width, height, j).x1,
{
    let br = layout.bottom_right_led_count as int;
    let r = layout.right_led_count as int;
    let t = layout.top_led_count as int;
    let l = layout.left_led_count as int;
    let bl = layout.bottom_left_led_count as int;
    lemma_group_widths(layout, width);
    if j < br {
        lemma_segment_edges_ordered(right_group_width(layout, width as int), br, i, j);
    }
    if j < r {
        lemma_segment_edges_ordered(height as int, r, r - 1 - j, r - 1 - i);
    }
    if j < t {
        lemma_segment_edges_ordered(width as int, t, t - 1 - j, t - 1 - i);
    }
    if j < l {
        lemma_segment_edges_ordered(height as int, l, i, j);
    }
    if j < bl {
        lemma_segment_edges_ordered(left_group_width(layout, width as int), bl, i, j);
    }
}

/// Setting the direction flag reverses the whole list that the same layout
/// gives without it, element for element.
pub proof fn lemma_inversion_reverses(layout: LedLayout, width: usize, height: usize)
    ensures
        strip_regions(with_direction(layout, true), width, height) == strip_regions(
            with_direction(layout, false),
            width,
            height,
        ).reverse(),
        forall|k: int|
            0 <= k < strip_regions(with_direction(layout, true), width, height).len()
                ==> #[trigger] strip_regions(with_direction(layout, true), width, height)[k]
                == strip_regions(with_direction(layout, false), width, height)[strip_regions(
                with_direction(layout, false),
                width,
                height,
            ).len() - 1 - k],
{
    let on = with_direction(layout, true);
    let off = with_direction(layout, false);
    assert(forward_regions(on, width, height) =~= forward_regions(off, width, height));
}

} // verus!
