//! From a frame and the offset tables to one colour per LED: the mean of the
//! sampled pixels, passed through the colour correction.

use vstd::prelude::*;
use crate::offsets::{lemma_offsets_in_frame, offset_at, offsets_view, region_offsets};
use crate::regions::{lemma_regions_within_screen, strip_regions, LedLayout, LedRegion};

verus! {

/// The colour correction of one run, tabulated: for each channel, the
/// corrected byte for every mean byte. Gamma, white balance and brightness are
/// fixed for a run, so each channel's correction is a function of the mean
/// alone.
pub struct ColorCurve {
    pub red: [u8; 256],
    pub green: [u8; 256],
    pub blue: [u8; 256],
}

impl ColorCurve {
    /// The corrected colour for a mean colour (red, green, blue).
    pub open spec fn apply(self, mean: (u8, u8, u8)) -> (u8, u8, u8) {
        (self.red@[mean.0 as int], self.green@[mean.1 as int], self.blue@[mean.2 as int])
    }

    /// Black stays black under this correction.
    pub open spec fn keeps_black(self) -> bool {
        self.red@[0] == 0 && self.green@[0] == 0 && self.blue@[0] == 0
    }

    /// Looks a mean colour up in the three tables.
    pub fn correct(&self, mean: (u8, u8, u8)) -> (color: (u8, u8, u8))
        ensures
            color == self.apply(mean),
    {
        (self.red[mean.0 as usize], self.green[mean.1 as usize], self.blue[mean.2 as usize])
    }
}

/// Every offset of the table leaves room in the frame for the three colour
/// bytes read at it.
pub open spec fn readable(frame: Seq<u8>, offsets: Seq<usize>) -> bool {
    forall|k: int| 0 <= k < offsets.len() ==> #[trigger] offsets[k] + 2 < frame.len()
}

/// The sum, over all offsets of the table, of the byte `channel` places after
/// the offset (0 blue, 1 green, 2 red).
pub open spec fn channel_sum(frame: Seq<u8>, offsets: Seq<usize>, channel: int) -> int
    decreases offsets.len(),
{
    if offsets.len() == 0 {
        0
    } else {
        channel_sum(frame, offsets.drop_last(), channel) + frame[offsets.last() + channel]
    }
}

/// The mean colour (red, green, blue) of the sampled pixels, each channel's
/// sum divided by the number of samples and truncated. Meant for a table that
/// is not empty.
pub open spec fn mean_color(frame: Seq<u8>, offsets: Seq<usize>) -> (u8, u8, u8) {
    (
        (channel_sum(frame, offsets, 2) / offsets.len() as int) as u8,
        (channel_sum(frame, offsets, 1) / offsets.len() as int) as u8,
        (channel_sum(frame, offsets, 0) / offsets.len() as int) as u8,
    )
}

/// The colour sent for one LED: black where nothing is sampled, else the
/// corrected mean.
pub open spec fn region_color(frame: Seq<u8>, offsets: Seq<usize>, curve: ColorCurve) -> (u8, u8, u8) {
    if offsets.len() == 0 {
        (0u8, 0u8, 0u8)
    } else {
        curve.apply(mean_color(frame, offsets))
    }
}

/// All sampled bytes of the three colour channels are zero.
pub open spec fn all_black(frame: Seq<u8>, offsets: Seq<usize>) -> bool {
    forall|k: int, c: int|
        0 <= k < offsets.len() && 0 <= c < 3 ==> #[trigger] frame[offsets[k] + c] == 0
}

/// A channel's sum lies between zero and 255 per sample.
pub proof fn lemma_channel_sum_bounds(frame: Seq<u8>, offsets: Seq<usize>, channel: int)
    requires
        readable(frame, offsets),
        0 <= channel < 3,
    ensures
        0 <= channel_sum(frame, offsets, channel) <= 255 * offsets.len(),
    decreases offsets.len(),
{
    if offsets.len() > 0 {
        assert(offsets.last() == offsets[offsets.len() - 1]);
        assert forall|k: int| 0 <= k < offsets.drop_last().len() implies #[trigger] offsets.drop_last()[k]
            + 2 < frame.len() by {
            assert(offsets.drop_last()[k] == offsets[k]);
        }
        lemma_channel_sum_bounds(frame, offsets.drop_last(), channel);
    }
}

/// Over black samples every channel sums to zero.
proof fn lemma_black_sum(frame: Seq<u8>, offsets: Seq<usize>, channel: int)
    requires
        all_black(frame, offsets),
        0 <= channel < 3,
    ensures
        channel_sum(frame, offsets, channel) == 0,
    decreases offsets.len(),
{
    if offsets.len() > 0 {
        let last = offsets.len() - 1;
        assert(frame[offsets[last] + channel] == 0);
        assert forall|k: int, c: int|
            0 <= k < offsets.drop_last().len() && 0 <= c < 3 implies #[trigger] frame[offsets.drop_last()[k]
            + c] == 0 by {
            assert(offsets.drop_last()[k] == offsets[k]);
            assert(frame[offsets[k] + c] == 0);
        }
        lemma_black_sum(frame, offsets.drop_last(), channel);
    }
}

/// A rectangle without pixels gives black, whatever the frame and the
/// correction.
pub proof fn lemma_empty_region_is_black(frame: Seq<u8>, curve: ColorCurve)
    ensures
        region_color(frame, Seq::empty(), curve) == (0u8, 0u8, 0u8),
{
}

/// Where every sampled byte is zero the mean is black, and so is the colour
/// sent under every correction that keeps black.
pub proof fn lemma_black_region_is_black(frame: Seq<u8>, offsets: Seq<usize>, curve: ColorCurve)
    requires
        all_black(frame, offsets),
    ensures
        offsets.len() > 0 ==> mean_color(frame, offsets) == (0u8, 0u8, 0u8),
        curve.keeps_black() ==> region_color(frame, offsets, curve) == (0u8, 0u8, 0u8),
{
    lemma_black_sum(frame, offsets, 0);
    lemma_black_sum(frame, offsets, 1);
    lemma_black_sum(frame, offsets, 2);
    if offsets.len() > 0 {
        assert(0int / (offsets.len() as int) == 0) by (nonlinear_arith)
            requires
                offsets.len() > 0,
        ;
    }
}

/// The table of a rectangle inside the screen can be read in every frame of
/// `width * height * 4` bytes.
pub proof fn lemma_table_readable(
    region: LedRegion,
    width: usize,
    height: usize,
    table: Seq<usize>,
    frame: Seq<u8>,
)
    requires
        region.within(width, height),
        offsets_view(table) == region_offsets(region, width as int),
        frame.len() == width * height * 4,
    ensures
        readable(frame, table),
{
    assert forall|k: int| 0 <= k < table.len() implies #[trigger] table[k] + 2 < frame.len() by {
        assert(offsets_view(table).len() == table.len());
        assert(offsets_view(table)[k] == table[k] as int);
        assert(region_offsets(region, width as int)[k] == offset_at(region, width as int, k));
        lemma_offsets_in_frame(region, width, height, k);
    }
}

/// The tables of a strip's rectangles can all be read in every frame of the
/// screen they were built for: no offset reaches past the frame's end.
pub proof fn lemma_strip_tables_readable(
    layout: LedLayout,
    width: usize,
    height: usize,
    tables: Seq<Vec<usize>>,
    frame: Seq<u8>,
)
    requires
        frame.len() == width * height * 4,
        tables.len() == strip_regions(layout, width, height).len(),
        forall|i: int|
            0 <= i < tables.len() ==> offsets_view((#[trigger] tables[i])@) == region_offsets(
                strip_regions(layout, width, height)[i],
                width as int,
            ),
    ensures
        forall|i: int| 0 <= i < tables.len() ==> readable(frame, (#[trigger] tables[i])@),
{
    lemma_regions_within_screen(layout, width, height);
    assert forall|i: int| 0 <= i < tables.len() implies readable(frame, (#[trigger] tables[i])@) by {
        lemma_table_readable(strip_regions(layout, width, height)[i], width, height, tables[i]@, frame);
    }
}

/// Averages the sampled pixels of one rectangle; `None` where the table is
/// empty.
pub fn average_color(frame: &[u8], offsets: &[usize]) -> (mean: Option<(u8, u8, u8)>)
    requires
        readable(frame@, offsets@),
    ensures
        mean == if offsets@.len() == 0 {
            None
        } else {
            Some(mean_color(frame@, offsets@))
        },
{
    let count: usize = offsets.len();
    if count == 0 {
        return None;
    }
    let mut sum_r: u128 = 0;
    let mut sum_g: u128 = 0;
    let mut sum_b: u128 = 0;
    let mut i: usize = 0;
    while i < count
        invariant
            count == offsets@.len(),
            i <= count,
            readable(frame@, offsets@),
            sum_b == channel_sum(frame@, offsets@.subrange(0, i as int), 0),
            sum_g == channel_sum(frame@, offsets@.subrange(0, i as int), 1),
            sum_r == channel_sum(frame@, offsets@.subrange(0, i as int), 2),
            sum_b <= 255 * i,
            sum_g <= 255 * i,
            sum_r <= 255 * i,
        decreases count - i,
    {
        let offset: usize = offsets[i];
        assert(offsets@[i as int] + 2 < frame@.len());
        proof {
            let next = offsets@.subrange(0, i + 1);
            assert(next.drop_last() =~= offsets@.subrange(0, i as int));
            assert(next.last() == offset);
        }
        sum_b = sum_b + frame[offset] as u128;
        sum_g = sum_g + frame[offset + 1] as u128;
        sum_r = sum_r + frame[offset + 2] as u128;
        i += 1;
    }
    assert(offsets@.subrange(0, count as int) =~= offsets@);
    let n: u128 = count as u128;
    proof {
        assert(sum_r as int / n as int <= 255 && sum_g as int / n as int <= 255 && sum_b as int
            / n as int <= 255) by (nonlinear_arith)
            requires
                n > 0,
                sum_r <= 255 * n,
                sum_g <= 255 * n,
                sum_b <= 255 * n,
        ;
    }
    Some(((sum_r / n) as u8, (sum_g / n) as u8, (sum_b / n) as u8))
}

/// Gives the colour for one LED: black where nothing is sampled, else the
/// corrected mean of the sampled pixels.
pub fn reduce_region(frame: &[u8], offsets: &[usize], curve: &ColorCurve) -> (color: (u8, u8, u8))
    requires
        readable(frame@, offsets@),
    ensures
        color == region_color(frame@, offsets@, *curve),
        offsets@.len() == 0 ==> color == (0u8, 0u8, 0u8),
        all_black(frame@, offsets@) && curve.keeps_black() ==> color == (0u8, 0u8, 0u8),
{
    proof {
        if all_black(frame@, offsets@) {
            lemma_black_region_is_black(frame@, offsets@, *curve);
        }
    }
    match average_color(frame, offsets) {
        None => (0, 0, 0),
        Some(mean) => curve.correct(mean),
    }
}

/// Gives the colours of all LEDs for one frame, in the order of the tables.
pub fn reduce_frame(frame: &[u8], tables: &[Vec<usize>], curve: &ColorCurve) -> (colors: Vec<(u8, u8, u8)>)
    requires
        forall|i: int| 0 <= i < tables@.len() ==> readable(frame@, (#[trigger] tables@[i])@),
    ensures
        colors@.len() == tables@.len(),
        forall|i: int|
            0 <= i < tables@.len() ==> #[trigger] colors@[i] == region_color(
                frame@,
                tables@[i]@,
                *curve,
            ),
{
    let mut colors: Vec<(u8, u8, u8)> = Vec::new();
    let n: usize = tables.len();
    let mut i: usize = 0;
    while i < n
        invariant
            n == tables@.len(),
            i <= n,
            colors@.len() == i,
            forall|j: int| 0 <= j < tables@.len() ==> readable(frame@, (#[trigger] tables@[j])@),
            forall|j: int|
                0 <= j < i ==> #[trigger] colors@[j] == region_color(frame@, tables@[j]@, *curve),
        decreases n - i,
    {
        let color = reduce_region(frame, tables[i].as_slice(), curve);
        colors.push(color);
        i += 1;
    }
    colors
}

} // verus!
