//! From sampling rectangles to byte offsets into a BGRA frame buffer, computed
//! once and used for every frame.

use vstd::prelude::*;
use vstd::arithmetic::div_mod::{lemma_fundamental_div_mod, lemma_fundamental_div_mod_converse, lemma_mod_pos_bound};
use crate::regions::{lemma_regions_within_screen, strip_regions, LedLayout, LedRegion};

verus! {

/// Bytes per pixel of a frame: blue, green, red, alpha.
pub const BYTES_PER_PIXEL: usize = 4;

/// The number of pixel columns in a rectangle.
pub open spec fn span_width(r: LedRegion) -> int {
    if r.x1 < r.x2 {
        r.x2 - r.x1
    } else {
        0
    }
}

/// The number of pixel rows in a rectangle.
pub open spec fn span_height(r: LedRegion) -> int {
    if r.y1 < r.y2 {
        r.y2 - r.y1
    } else {
        0
    }
}

/// The number of pixels in a rectangle.
pub open spec fn area(r: LedRegion) -> int {
    span_width(r) * span_height(r)
}

/// Offset of the blue byte of pixel (`x`, `y`) in a frame `width` pixels wide;
/// green and red follow at `+1` and `+2`.
pub open spec fn pixel_offset(x: int, y: int, width: int) -> int {
    y * width * 4 + x * 4
}

/// Offset of the `k`-th pixel of a rectangle, rows from the top, each row from
/// the left.
pub open spec fn offset_at(r: LedRegion, width: int, k: int) -> int {
    pixel_offset(r.x1 + k % span_width(r), r.y1 + k / span_width(r), width)
}

/// The offsets of all pixels of a rectangle, in row-major order.
pub open spec fn region_offsets(r: LedRegion, width: int) -> Seq<int> {
    Seq::new(area(r) as nat, |k: int| offset_at(r, width, k))
}

/// A table of offsets as mathematical integers.
pub open spec fn offsets_view(table: Seq<usize>) -> Seq<int> {
    Seq::new(table.len(), |k: int| table[k] as int)
}

/// A rectangle whose offsets can be computed in machine words: unless it is
/// empty, it ends inside a row and its last row ends within `usize`.
pub open spec fn addressable(r: LedRegion, width: int) -> bool {
    area(r) > 0 ==> r.x2 <= width && r.y2 * width * 4 <= usize::MAX
}

/// A pixel index splits into its row and column within the rectangle.
proof fn lemma_row_column(w: int, row: int, col: int)
    requires
        0 <= col < w,
        0 <= row,
    ensures
        (row * w + col) / w == row,
        (row * w + col) % w == col,
{
    lemma_fundamental_div_mod_converse(row * w + col, w, row, col);
}

/// The offset of a pixel inside the frame leaves room for its four bytes
/// before the end of its row.
proof fn lemma_pixel_offset_bound(x: int, y: int, width: int, rows: int)
    requires
        0 <= x < width,
        0 <= y < rows,
    ensures
        0 <= pixel_offset(x, y, width),
        pixel_offset(x, y, width) + 4 <= rows * width * 4,
        pixel_offset(x, y, width) % 4 == 0,
{
    assert(0 <= y * width && y * width + width <= rows * width) by (nonlinear_arith)
        requires
            0 <= y < rows,
            0 < width,
    ;
    assert(pixel_offset(x, y, width) == 4 * (y * width + x)) by (nonlinear_arith);
    assert(rows * width * 4 == 4 * (rows * width)) by (nonlinear_arith);
}

/// The row and column of the `k`-th pixel lie inside the rectangle.
proof fn lemma_pixel_in_region(r: LedRegion, k: int)
    requires
        0 <= k < area(r),
    ensures
        span_width(r) > 0,
        r.x1 <= r.x1 + k % span_width(r) < r.x2,
        r.y1 <= r.y1 + k / span_width(r) < r.y2,
{
    let w = span_width(r);
    let h = span_height(r);
    assert(w > 0 && h > 0) by (nonlinear_arith)
        requires
            0 < w * h,
            w >= 0,
            h >= 0,
    ;
    lemma_fundamental_div_mod(k, w);
    lemma_mod_pos_bound(k, w);
    assert(0 <= k / w < h) by (nonlinear_arith)
        requires
            k == w * (k / w) + k % w,
            0 <= k % w < w,
            0 <= k < w * h,
    ;
}

/// Every offset of a rectangle inside a `width` by `height` screen is a
/// multiple of four and addresses a whole pixel of a frame of
/// `width * height * 4` bytes.
pub proof fn lemma_offsets_in_frame(r: LedRegion, width: usize, height: usize, k: int)
    requires
        r.within(width, height),
        0 <= k < area(r),
    ensures
        0 <= offset_at(r, width as int, k),
        offset_at(r, width as int, k) + 4 <= width * height * 4,
        offset_at(r, width as int, k) % 4 == 0,
{
    lemma_pixel_in_region(r, k);
    lemma_pixel_offset_bound(
        r.x1 + k % span_width(r),
        r.y1 + k / span_width(r),
        width as int,
        height as int,
    );
    assert(height * width * 4 == width * height * 4) by (nonlinear_arith);
}

/// A rectangle inside a screen whose frame size fits in `usize` is
/// addressable.
pub proof fn lemma_within_is_addressable(r: LedRegion, width: usize, height: usize)
    requires
        r.within(width, height),
        width * height * 4 <= usize::MAX,
    ensures
        addressable(r, width as int),
{
    assert(r.y2 * width * 4 <= width * height * 4) by (nonlinear_arith)
        requires
            0 <= r.y2 <= height,
            0 <= width,
    ;
}

/// Every rectangle built for a screen whose frame size fits in `usize` is
/// addressable, so its offsets can be listed.
pub proof fn lemma_strip_regions_addressable(layout: LedLayout, width: usize, height: usize)
    requires
        width * height * 4 <= usize::MAX,
    ensures
        forall|k: int|
            0 <= k < strip_regions(layout, width, height).len() ==> addressable(
                #[trigger] strip_regions(layout, width, height)[k],
                width as int,
            ),
{
    lemma_regions_within_screen(layout, width, height);
    assert forall|k: int| 0 <= k < strip_regions(layout, width, height).len() implies addressable(
        #[trigger] strip_regions(layout, width, height)[k],
        width as int,
    ) by {
        lemma_within_is_addressable(strip_regions(layout, width, height)[k], width, height);
    }
}

/// Within a row the offsets rise by four from one pixel to the next, and the
/// same column one row further down lies `width * 4` bytes later.
pub proof fn lemma_offset_steps(r: LedRegion, width: int, k: int)
    requires
        0 <= k < area(r),
    ensures
        k + 1 < area(r) && (k + 1) % span_width(r) != 0 ==> offset_at(r, width, k + 1) == offset_at(
            r,
            width,
            k,
        ) + 4,
        k + span_width(r) < area(r) ==> offset_at(r, width, k + span_width(r)) == offset_at(
            r,
            width,
            k,
        ) + width * 4,
{
    let w = span_width(r);
    lemma_pixel_in_region(r, k);
    lemma_fundamental_div_mod(k, w);
    lemma_mod_pos_bound(k, w);
    let row = k / w;
    let col = k % w;
    assert(k == row * w + col) by (nonlinear_arith)
        requires
            k == w * row + col,
    ;
    assert(0 <= row) by (nonlinear_arith)
        requires
            k == row * w + col,
            0 <= k,
            0 <= col < w,
    ;
    assert(k + w == (row + 1) * w + col) by (nonlinear_arith)
        requires
            k == row * w + col,
    ;
    lemma_row_column(w, row + 1, col);
    assert((r.y1 + row + 1) * width * 4 == (r.y1 + row) * width * 4 + width * 4)
        by (nonlinear_arith);
    if col + 1 < w {
        lemma_row_column(w, row, col + 1);
    } else {
        assert(k + 1 == (row + 1) * w + 0) by (nonlinear_arith)
            requires
                k == row * w + col,
                col + 1 == w,
        ;
        lemma_row_column(w, row + 1, 0);
    }
}

/// Lists the offsets of one rectangle's pixels, row by row.
#[verifier::loop_isolation(false)]
pub fn region_indices(region: &LedRegion, width: usize) -> (table: Vec<usize>)
    requires
        addressable(*region, width as int),
    ensures
        offsets_view(table@) == region_offsets(*region, width as int),
{
    let mut table: Vec<usize> = Vec::new();
    if region.x1 >= region.x2 || region.y1 >= region.y2 {
        assert(area(*region) == 0) by (nonlinear_arith)
            requires
                span_width(*region) == 0 || span_height(*region) == 0,
                area(*region) == span_width(*region) * span_height(*region),
        ;
        assert(offsets_view(table@) =~= region_offsets(*region, width as int));
        return table;
    }
    let ghost w: int = region.x2 - region.x1;
    let ghost h: int = region.y2 - region.y1;
    assert(area(*region) > 0) by (nonlinear_arith)
        requires
            area(*region) == w * h,
            w > 0,
            h > 0,
    ;
    let mut y: usize = region.y1;
    while y < region.y2
        invariant
            region.y1 <= y <= region.y2,
            table@.len() == (y - region.y1) * w,
            forall|k: int| 0 <= k < table@.len() ==> table@[k] == offset_at(*region, width as int, k),
        decreases region.y2 - y,
    {
        proof {
            lemma_pixel_offset_bound(region.x1 as int, y as int, width as int, region.y2 as int);
            assert(y * width * 4 == 4 * (y * width)) by (nonlinear_arith);
            assert(0 <= y * width) by (nonlinear_arith);
        }
        let row_base: usize = y * width * BYTES_PER_PIXEL;
        let mut x: usize = region.x1;
        while x < region.x2
            invariant
                region.x1 <= x <= region.x2,
                table@.len() == (y - region.y1) * w + (x - region.x1),
                forall|k: int|
                    0 <= k < table@.len() ==> table@[k] == offset_at(*region, width as int, k),
            decreases region.x2 - x,
        {
            proof {
                lemma_pixel_offset_bound(x as int, y as int, width as int, region.y2 as int);
                assert(0 <= (y - region.y1) * w) by (nonlinear_arith)
                    requires
                        y >= region.y1,
                        w > 0,
                ;
                lemma_row_column(w, y - region.y1, x - region.x1);
            }
            table.push(row_base + x * BYTES_PER_PIXEL);
            x += 1;
        }
        assert((y - region.y1) * w + w == (y + 1 - region.y1) * w) by (nonlinear_arith);
        y += 1;
    }
    assert(table@.len() == area(*region)) by (nonlinear_arith)
        requires
            table@.len() == (y - region.y1) * w,
            y == region.y2,
            area(*region) == w * h,
            h == region.y2 - region.y1,
    ;
    assert(offsets_view(table@) =~= region_offsets(*region, width as int));
    table
}

/// Lists, for every rectangle in turn, the offsets of its pixels.
pub fn precompute_region_indices(regions: &[LedRegion], width: usize) -> (tables: Vec<Vec<usize>>)
    requires
        forall|i: int| 0 <= i < regions@.len() ==> addressable(#[trigger] regions@[i], width as int),
    ensures
        tables@.len() == regions@.len(),
        forall|i: int|
            0 <= i < regions@.len() ==> offsets_view((#[trigger] tables@[i])@) == region_offsets(
                regions@[i],
                width as int,
            ),
{
    let mut tables: Vec<Vec<usize>> = Vec::new();
    let n: usize = regions.len();
    let mut i: usize = 0;
    while i < n
        invariant
            n == regions@.len(),
            i <= n,
            tables@.len() == i,
            forall|j: int| 0 <= j < regions@.len() ==> addressable(#[trigger] regions@[j], width as int),
            forall|j: int|
                0 <= j < i ==> offsets_view((#[trigger] tables@[j])@) == region_offsets(
                    regions@[j],
                    width as int,
                ),
        decreases n - i,
    {
        let table = region_indices(&regions[i], width);
        tables.push(table);
        i += 1;
    }
    tables
}

} // verus!
