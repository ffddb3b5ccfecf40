//! Supersampled anti-aliasing: gathering sub-pixel samples and averaging them.

use vstd::prelude::*;
use crate::coords::{all_unset, is_table, names_columns, unset, Entry, SsaaCoords};
use crate::pack::{lanes_in_range, EightPixels};
use crate::rgba::{add_pixel, div_pixel, widen};
use crate::source::PixelArray;

verus! {

/// The linear index of the pixel at column `x` of row `y`, if the source has
/// one there: the column is below the width, the row below the height, and
/// the index `y * width + x` below the length. The index is taken as a
/// number, not as a machine word: where it does not fit in a `usize` it is
/// not below any length, and there is no pixel.
pub open spec fn sample_index(
    x: usize,
    y: usize,
    width: usize,
    height: usize,
    length: usize,
) -> Option<usize> {
    if x < width && y < height && y * width + x < length {
        Some((y * width + x) as usize)
    } else {
        None
    }
}

/// What the sample at `at` adds to channel `channel` of its output pixel:
/// the source's channel where there is a pixel to read, nothing elsewhere.
pub open spec fn sample_channel<P: PixelArray>(src: &P, at: Entry, channel: int) -> int {
    match sample_index(at.x, at.y, src.spec_width(), src.spec_height(), src.spec_length()) {
        Some(index) => src.pixel(index)[channel] as int,
        None => 0,
    }
}

/// The sum, over the first `rows` sub-pixels of output pixel `slot`, of what
/// each sample adds to channel `channel`. The samples of an output pixel are
/// those of its column: a table names its columns, so an entry that is read
/// adds to the output pixel of the column it stands in.
pub open spec fn channel_sum<P: PixelArray>(
    coords: Seq<Seq<Entry>>,
    src: &P,
    slot: int,
    channel: int,
    rows: int,
) -> int
    decreases rows,
{
    if rows <= 0 {
        0
    } else {
        channel_sum(coords, src, slot, channel, rows - 1) + sample_channel(
            src,
            coords[rows - 1][slot],
            channel,
        )
    }
}

/// Lane `lane` of the averaged pack: the sum over all sub-pixels, divided by
/// their number whether or not each of them could be read.
pub open spec fn ssaa_lane<P: PixelArray>(
    coords: Seq<Seq<Entry>>,
    src: &P,
    lane: int,
) -> int {
    channel_sum(coords, src, lane / 4, lane % 4, coords.len() as int) / (coords.len() as int)
}

/// The averaged pack.
pub open spec fn ssaa_lanes<P: PixelArray>(
    coords: Seq<Seq<Entry>>,
    src: &P,
) -> Seq<u16> {
    Seq::new(32, |lane: int| ssaa_lane(coords, src, lane) as u16)
}

/// How many of the first `rows` sub-pixels of output pixel `slot` lie inside
/// the source.
pub open spec fn sample_count<P: PixelArray>(
    coords: Seq<Seq<Entry>>,
    src: &P,
    slot: int,
    rows: int,
) -> int
    decreases rows,
{
    if rows <= 0 {
        0
    } else {
        let at = coords[rows - 1][slot];
        sample_count(coords, src, slot, rows - 1) + if sample_index(
            at.x,
            at.y,
            src.spec_width(),
            src.spec_height(),
            src.spec_length(),
        ) is Some {
            1int
        } else {
            0int
        }
    }
}

/// What the sums of an output pixel with `count` samples inside the source
/// are divided by: the count itself, or one where there is none.
pub open spec fn divisor_of(count: int) -> int {
    if count == 0 {
        1
    } else {
        count
    }
}

/// Lane `lane` of the pack averaged over the samples inside the source.
pub open spec fn counted_lane<P: PixelArray>(
    coords: Seq<Seq<Entry>>,
    src: &P,
    lane: int,
) -> int {
    channel_sum(coords, src, lane / 4, lane % 4, coords.len() as int) / divisor_of(
        sample_count(coords, src, lane / 4, coords.len() as int),
    )
}

/// The pack averaged over the samples inside the source.
pub open spec fn counted_lanes<P: PixelArray>(
    coords: Seq<Seq<Entry>>,
    src: &P,
) -> Seq<u16> {
    Seq::new(32, |lane: int| counted_lane(coords, src, lane) as u16)
}

/// A sample adds a channel value or nothing.
pub proof fn lemma_sample_channel_bounds<P: PixelArray>(src: &P, at: Entry, channel: int)
    requires
        0 <= channel < 4,
    ensures
        0 <= sample_channel(src, at, channel) <= 255,
{
}

/// `rows` samples sum to at most `255 * rows`.
pub proof fn lemma_channel_sum_bounds<P: PixelArray>(
    coords: Seq<Seq<Entry>>,
    src: &P,
    slot: int,
    channel: int,
    rows: int,
)
    requires
        0 <= channel < 4,
        0 <= rows,
    ensures
        0 <= channel_sum(coords, src, slot, channel, rows) <= 255 * rows,
    decreases rows,
{
    if rows > 0 {
        lemma_channel_sum_bounds(coords, src, slot, channel, rows - 1);
        lemma_sample_channel_bounds(src, coords[rows - 1][slot], channel);
    }
}

/// Of `rows` samples at most `rows` lie inside the source.
pub proof fn lemma_sample_count_bounds<P: PixelArray>(
    coords: Seq<Seq<Entry>>,
    src: &P,
    slot: int,
    rows: int,
)
    requires
        0 <= rows,
    ensures
        0 <= sample_count(coords, src, slot, rows) <= rows,
    decreases rows,
{
    if rows > 0 {
        lemma_sample_count_bounds(coords, src, slot, rows - 1);
    }
}

/// The samples inside the source sum to at most 255 each; the others add
/// nothing.
pub proof fn lemma_channel_sum_counted<P: PixelArray>(
    coords: Seq<Seq<Entry>>,
    src: &P,
    slot: int,
    channel: int,
    rows: int,
)
    requires
        0 <= channel < 4,
        0 <= rows,
    ensures
        0 <= channel_sum(coords, src, slot, channel, rows) <= 255 * sample_count(
            coords,
            src,
            slot,
            rows,
        ),
        channel_sum(coords, src, slot, channel, rows) <= 255 * divisor_of(
            sample_count(coords, src, slot, rows),
        ),
    decreases rows,
{
    if rows > 0 {
        lemma_channel_sum_counted(coords, src, slot, channel, rows - 1);
        lemma_sample_channel_bounds(src, coords[rows - 1][slot], channel);
    }
}

/// Two sources show the same picture: they have the same geometry and the
/// same pixel at every index that can be read.
pub open spec fn same_picture<P: PixelArray, Q: PixelArray>(src: &P, other: &Q) -> bool {
    &&& src.spec_width() == other.spec_width()
    &&& src.spec_height() == other.spec_height()
    &&& src.spec_length() == other.spec_length()
    &&& forall|index: usize|
        index < src.spec_length() ==> #[trigger] src.pixel(index) == other.pixel(index)
}

/// The sums depend on the source through its geometry and its readable
/// pixels alone.
proof fn lemma_same_picture_sums<P: PixelArray, Q: PixelArray>(
    coords: Seq<Seq<Entry>>,
    src: &P,
    other: &Q,
    slot: int,
    channel: int,
    rows: int,
)
    requires
        same_picture(src, other),
    ensures
        channel_sum(coords, src, slot, channel, rows) == channel_sum(
            coords,
            other,
            slot,
            channel,
            rows,
        ),
        sample_count(coords, src, slot, rows) == sample_count(coords, other, slot, rows),
    decreases rows,
{
    if rows > 0 {
        lemma_same_picture_sums(coords, src, other, slot, channel, rows - 1);
    }
}

/// Sampling is a function of the table and of what the source shows: over
/// two sources that show the same picture, the same table averages to the
/// same pack, whichever divisor is used.
pub proof fn lemma_ssaa_reads_the_picture<P: PixelArray, Q: PixelArray>(
    coords: Seq<Seq<Entry>>,
    src: &P,
    other: &Q,
)
    requires
        same_picture(src, other),
    ensures
        ssaa_lanes(coords, src) == ssaa_lanes(coords, other),
        counted_lanes(coords, src) == counted_lanes(coords, other),
{
    assert forall|lane: int| 0 <= lane < 32 implies ssaa_lane(coords, src, lane) == ssaa_lane(
        coords,
        other,
        lane,
    ) && counted_lane(coords, src, lane) == counted_lane(coords, other, lane) by {
        lemma_same_picture_sums(coords, src, other, lane / 4, lane % 4, coords.len() as int);
    }
    assert(ssaa_lanes(coords, src) =~= ssaa_lanes(coords, other));
    assert(counted_lanes(coords, src) =~= counted_lanes(coords, other));
}

/// Every entry of the table names a pixel that the source has.
pub open spec fn all_in_bounds<P: PixelArray>(coords: Seq<Seq<Entry>>, src: &P) -> bool {
    forall|i: int, j: int|
        0 <= i < coords.len() && 0 <= j < 8 ==> sample_index(
            (#[trigger] coords[i][j]).x,
            coords[i][j].y,
            src.spec_width(),
            src.spec_height(),
            src.spec_length(),
        ) is Some
}

/// Over samples that are all `color`, the first `rows` of them sum to `rows`
/// times each channel of `color`.
proof fn lemma_constant_sum<P: PixelArray>(
    coords: Seq<Seq<Entry>>,
    src: &P,
    color: [u8; 4],
    slot: int,
    channel: int,
    rows: int,
)
    requires
        0 <= slot < 8,
        0 <= channel < 4,
        0 <= rows <= coords.len(),
        is_table(coords, coords.len()),
        all_in_bounds(coords, src),
        forall|index: usize| index < src.spec_length() ==> #[trigger] src.pixel(index) == color,
    ensures
        channel_sum(coords, src, slot, channel, rows) == rows * color[channel],
    decreases rows,
{
    if rows > 0 {
        lemma_constant_sum(coords, src, color, slot, channel, rows - 1);
        let at = coords[rows - 1][slot];
        let index = sample_index(
            at.x,
            at.y,
            src.spec_width(),
            src.spec_height(),
            src.spec_length(),
        );
        assert(index is Some);
        assert(src.pixel(index.unwrap()) == color);
        assert((rows - 1) * color[channel] + color[channel] == rows * color[channel])
            by (nonlinear_arith);
    } else {
        assert(rows * color[channel] == 0) by (nonlinear_arith)
            requires
                rows == 0,
        ;
    }
}

/// Averaging a source of one colour gives that colour: where every pixel
/// that can be read is `color` and every sample lies inside the source, each
/// of the eight output pixels is `color`, whatever the number of sub-pixels.
pub proof fn lemma_constant_image<P: PixelArray>(
    coords: Seq<Seq<Entry>>,
    src: &P,
    color: [u8; 4],
)
    requires
        coords.len() > 0,
        is_table(coords, coords.len()),
        all_in_bounds(coords, src),
        forall|index: usize| index < src.spec_length() ==> #[trigger] src.pixel(index) == color,
    ensures
        forall|lane: int|
            0 <= lane < 32 ==> #[trigger] ssaa_lanes(coords, src)[lane] == color[lane % 4],
{
    let rows = coords.len() as int;
    assert forall|lane: int| 0 <= lane < 32 implies #[trigger] ssaa_lanes(coords, src)[lane]
        == color[lane % 4] by {
        lemma_constant_sum(coords, src, color, lane / 4, lane % 4, rows);
        let channel = color[lane % 4] as int;
        assert((rows * channel) / rows == channel) by (nonlinear_arith)
            requires
                rows > 0,
        ;
    }
}

/// Unset entries add nothing, so the first `rows` of them sum to zero.
proof fn lemma_unset_sum<P: PixelArray>(
    sub_pixels: nat,
    src: &P,
    slot: int,
    channel: int,
    rows: int,
)
    requires
        0 <= slot < 8,
        0 <= rows <= sub_pixels,
    ensures
        channel_sum(all_unset(sub_pixels), src, slot, channel, rows) == 0,
    decreases rows,
{
    if rows > 0 {
        lemma_unset_sum(sub_pixels, src, slot, channel, rows - 1);
        assert(all_unset(sub_pixels)[rows - 1][slot] == unset());
    }
}

/// A table on which nothing was set averages to a pack of zeros, over any
/// source.
pub proof fn lemma_unset_coords<P: PixelArray>(sub_pixels: nat, src: &P)
    requires
        sub_pixels > 0,
    ensures
        forall|lane: int|
            0 <= lane < 32 ==> #[trigger] ssaa_lanes(all_unset(sub_pixels), src)[lane] == 0,
{
    assert forall|lane: int| 0 <= lane < 32 implies #[trigger] ssaa_lanes(
        all_unset(sub_pixels),
        src,
    )[lane] == 0 by {
        lemma_unset_sum(sub_pixels, src, lane / 4, lane % 4, sub_pixels as int);
        assert(0int / (sub_pixels as int) == 0) by (nonlinear_arith)
            requires
                sub_pixels > 0,
        ;
    }
}

/// The index at which the source is read for the coordinates `(x, y)`, if
/// it has a pixel there.
pub fn locate(x: usize, y: usize, width: usize, height: usize, length: usize) -> (index: Option<
    usize,
>)
    ensures
        index == sample_index(x, y, width, height, length),
{
    if x < width && y < height {
        match y.checked_mul(width) {
            Some(row_start) => match row_start.checked_add(x) {
                Some(index) => if index < length {
                    Some(index)
                } else {
                    None
                },
                None => None,
            },
            None => None,
        }
    } else {
        None
    }
}

/// The sums of the samples' channels and the number of samples read, for each
/// of the eight output pixels. The source is read where [`locate`] finds a
/// pixel and nowhere else.
fn gather<P: PixelArray, const SSAA_SQ: usize>(
    src_coords: &SsaaCoords<SSAA_SQ>,
    src: &P,
) -> (gathered: ([[u16; 4]; 8], [u16; 8]))
    requires
        SSAA_SQ <= 257,
    ensures
        forall|slot: int, c: int|
            0 <= slot < 8 && 0 <= c < 4 ==> #[trigger] gathered.0[slot][c] == channel_sum(
                src_coords@,
                src,
                slot,
                c,
                SSAA_SQ as int,
            ),
        forall|slot: int|
            0 <= slot < 8 ==> #[trigger] gathered.1[slot] == sample_count(
                src_coords@,
                src,
                slot,
                SSAA_SQ as int,
            ),
{
    let src_w = src.width();
    let src_h = src.height();
    let src_l = src.length();
    proof {
        src_coords.lemma_shape();
        use_type_invariant(src_coords);
    }

    let mut ssaa_px: [u16; 8] = [0u16; 8];
    let mut sums: [[u16; 4]; 8] = [[0u16; 4]; 8];

    let mut i: usize = 0;
    while i < SSAA_SQ
        invariant
            i <= SSAA_SQ <= 257,
            is_table(src_coords@, SSAA_SQ as nat),
            names_columns(src_coords@),
            src_w == src.spec_width(),
            src_h == src.spec_height(),
            src_l == src.spec_length(),
            forall|slot: int, c: int|
                0 <= slot < 8 && 0 <= c < 4 ==> #[trigger] sums[slot][c] == channel_sum(
                    src_coords@,
                    src,
                    slot,
                    c,
                    i as int,
                ),
            forall|slot: int|
                0 <= slot < 8 ==> #[trigger] ssaa_px[slot] == sample_count(
                    src_coords@,
                    src,
                    slot,
                    i as int,
                ),
        decreases SSAA_SQ - i,
    {
        let mut j: usize = 0;
        while j < 8
            invariant
                j <= 8,
                i < SSAA_SQ <= 257,
                is_table(src_coords@, SSAA_SQ as nat),
                names_columns(src_coords@),
                src_w == src.spec_width(),
                src_h == src.spec_height(),
                src_l == src.spec_length(),
                forall|slot: int, c: int|
                    0 <= slot < 8 && 0 <= c < 4 ==> #[trigger] sums[slot][c] == channel_sum(
                        src_coords@,
                        src,
                        slot,
                        c,
                        if slot < j { i + 1 } else { i as int },
                    ),
                forall|slot: int|
                    0 <= slot < 8 ==> #[trigger] ssaa_px[slot] == sample_count(
                        src_coords@,
                        src,
                        slot,
                        if slot < j { i + 1 } else { i as int },
                    ),
            decreases 8 - j,
        {
            let Entry { slot: src_o, x: src_x, y: src_y } = src_coords.entry(j, i);
            match locate(src_x, src_y, src_w, src_h, src_l) {
                Some(src_i) => {
                    let rgba = widen(src.get(src_i));
                    proof {
                        assert(src_coords@[i as int][j as int].slot == j);
                        lemma_sample_count_bounds(src_coords@, src, j as int, i as int);
                        assert forall|c: int| 0 <= c < 4 implies sums[src_o as int][c] + rgba[c]
                            <= u16::MAX by {
                            lemma_channel_sum_bounds(src_coords@, src, j as int, c, i as int);
                        }
                    }
                    sums[src_o] = add_pixel(sums[src_o], rgba);
                    ssaa_px[src_o] += 1;
                },
                None => {},
            }
            j += 1;
        }
        i += 1;
    }
    (sums, ssaa_px)
}

/// Divides the sums of each output pixel by that pixel's divisor and packs
/// the quotients.
fn divide(sums: [[u16; 4]; 8], divisors: [u16; 8]) -> (pack: EightPixels)
    requires
        forall|slot: int| 0 <= slot < 8 ==> #[trigger] divisors[slot] > 0,
        forall|slot: int, c: int|
            0 <= slot < 8 && 0 <= c < 4 ==> #[trigger] sums[slot][c] <= 255 * divisors[slot],
    ensures
        forall|lane: int|
            0 <= lane < 32 ==> #[trigger] pack@[lane] == sums[lane / 4][lane % 4]
                / divisors[lane / 4],
        lanes_in_range(pack@),
{
    let mut lanes: [u16; 32] = [0u16; 32];
    let mut p: usize = 0;
    while p < 8
        invariant
            p <= 8,
            forall|slot: int| 0 <= slot < 8 ==> #[trigger] divisors[slot] > 0,
            forall|slot: int, c: int|
                0 <= slot < 8 && 0 <= c < 4 ==> #[trigger] sums[slot][c] <= 255 * divisors[slot],
            forall|lane: int|
                0 <= lane < 4 * p ==> #[trigger] lanes[lane] == sums[lane / 4][lane % 4]
                    / divisors[lane / 4],
            forall|lane: int| 0 <= lane < 4 * p ==> #[trigger] lanes[lane] <= 255,
        decreases 8 - p,
    {
        let quotient = div_pixel(sums[p], divisors[p]);
        proof {
            assert forall|c: int| 0 <= c < 4 implies #[trigger] quotient[c] <= 255 by {
                let sum = sums[p as int][c] as int;
                let divisor = divisors[p as int] as int;
                assert(sum / divisor <= 255) by (nonlinear_arith)
                    requires
                        0 <= sum <= 255 * divisor,
                        0 < divisor,
                ;
            }
        }
        lanes[4 * p] = quotient[0];
        lanes[4 * p + 1] = quotient[1];
        lanes[4 * p + 2] = quotient[2];
        lanes[4 * p + 3] = quotient[3];
        p += 1;
    }
    EightPixels::from_lanes(lanes)
}

/// Averages, for each of up to eight output pixels, the `SSAA_SQ` samples
/// that `src_coords` names. A sample outside the source adds nothing and
/// still counts in the divisor, so pixels at the source's edge come out
/// darker.
///
/// The sums are kept in 16 bits, hence at most 257 samples per pixel.
pub fn ssaa8<P: PixelArray, const SSAA_SQ: usize>(
    src_coords: SsaaCoords<SSAA_SQ>,
    src: &P,
) -> (pack: EightPixels)
    requires
        0 < SSAA_SQ <= 257,
    ensures
        pack@ == ssaa_lanes(src_coords@, src),
        lanes_in_range(pack@),
        names_columns(src_coords@),
{
    let (sums, _) = gather(&src_coords, src);
    proof {
        use_type_invariant(&src_coords);
        src_coords.lemma_shape();
        assert forall|slot: int, c: int|
            0 <= slot < 8 && 0 <= c < 4 implies #[trigger] sums[slot][c] <= 255 * SSAA_SQ by {
            lemma_channel_sum_bounds(src_coords@, src, slot, c, SSAA_SQ as int);
        }
    }
    let pack = divide(sums, [SSAA_SQ as u16; 8]);
    assert(pack@ =~= ssaa_lanes(src_coords@, src));
    pack
}

/// Averages like [`ssaa8`], but over the samples that could be read: each
/// output pixel's sums are divided by the number of its samples inside the
/// source, or left at zero where there is none. Pixels at the source's edge
/// keep their brightness.
pub fn ssaa8_by_count<P: PixelArray, const SSAA_SQ: usize>(
    src_coords: SsaaCoords<SSAA_SQ>,
    src: &P,
) -> (pack: EightPixels)
    requires
        SSAA_SQ <= 257,
    ensures
        pack@ == counted_lanes(src_coords@, src),
        lanes_in_range(pack@),
        names_columns(src_coords@),
{
    let (sums, ssaa_px) = gather(&src_coords, src);
    proof {
        use_type_invariant(&src_coords);
        src_coords.lemma_shape();
    }
    let mut divisors: [u16; 8] = [1u16; 8];
    let mut i: usize = 0;
    while i < 8
        invariant
            i <= 8,
            forall|slot: int|
                0 <= slot < i ==> #[trigger] divisors[slot] == divisor_of(ssaa_px[slot] as int),
            forall|slot: int| i <= slot < 8 ==> #[trigger] divisors[slot] == 1,
        decreases 8 - i,
    {
        divisors[i] = match ssaa_px[i] {
            0 => 1,
            n => n,
        };
        i += 1;
    }
    proof {
        assert forall|slot: int, c: int|
            0 <= slot < 8 && 0 <= c < 4 implies #[trigger] sums[slot][c] <= 255
            * divisors[slot] by {
            lemma_channel_sum_counted(src_coords@, src, slot, c, SSAA_SQ as int);
        }
    }
    let pack = divide(sums, divisors);
    assert(pack@ =~= counted_lanes(src_coords@, src));
    pack
}

} // verus!
