//! Alpha compositing of a pack over a destination byte slice.

use vstd::prelude::*;
use crate::pack::{lanes_in_range, narrowed, EightPixels};

verus! {

/// Where the alpha byte stands within a pixel.
#[derive(Debug, Copy, Clone, PartialEq, Eq, Structural)]
pub enum AlphaConfig {
    Byte0,
    Byte1,
    Byte2,
    Byte3,
    /// The pixels are copied as they are, without blending.
    NoAlpha,
}

impl AlphaConfig {
    /// The channel that holds alpha, if the configuration blends at all.
    pub open spec fn alpha_index(self) -> Option<int> {
        match self {
            AlphaConfig::Byte0 => Some(0int),
            AlphaConfig::Byte1 => Some(1int),
            AlphaConfig::Byte2 => Some(2int),
            AlphaConfig::Byte3 => Some(3int),
            AlphaConfig::NoAlpha => None,
        }
    }
}

/// The lane that holds the alpha of the pixel which lane `lane` belongs to.
pub open spec fn alpha_lane(lane: int, alpha_channel: int) -> int {
    lane - lane % 4 + alpha_channel
}

/// Source over destination for one channel, weighted by the source's alpha;
/// the division rounds toward zero.
pub open spec fn blend_channel(src: int, dst: int, alpha: int) -> int {
    (src * alpha + dst * (255 - alpha)) / 255
}

/// What lane `lane` of the destination holds after compositing.
pub open spec fn blend_lane(src: Seq<u16>, dst: Seq<u8>, config: AlphaConfig, lane: int) -> int {
    match config.alpha_index() {
        Some(channel) => blend_channel(
            src[lane] as int,
            dst[lane] as int,
            src[alpha_lane(lane, channel)] as int,
        ),
        None => src[lane] as int,
    }
}

/// The destination bytes after compositing `src` over `dst`.
pub open spec fn blended(src: Seq<u16>, dst: Seq<u8>, config: AlphaConfig) -> Seq<u8> {
    Seq::new(dst.len(), |lane: int| blend_lane(src, dst, config, lane) as u8)
}

/// Blending two channel values gives a channel value, and neither product
/// nor their sum leaves `255 * 255`: the weights `alpha` and `255 - alpha`
/// sum to 255.
pub proof fn lemma_blend_channel_bounds(src: int, dst: int, alpha: int)
    requires
        0 <= src <= 255,
        0 <= dst <= 255,
        0 <= alpha <= 255,
    ensures
        0 <= src * alpha <= 65025,
        0 <= dst * (255 - alpha) <= 65025,
        0 <= src * alpha + dst * (255 - alpha) <= 65025,
        0 <= blend_channel(src, dst, alpha) <= 255,
{
    assert(0 <= src * alpha <= 255 * alpha) by (nonlinear_arith)
        requires
            0 <= src <= 255,
            0 <= alpha,
    ;
    assert(0 <= dst * (255 - alpha) <= 255 * (255 - alpha)) by (nonlinear_arith)
        requires
            0 <= dst <= 255,
            0 <= 255 - alpha,
    ;
}

/// Every pixel of the pack has the alpha `alpha` in channel `channel`.
pub open spec fn uniform_alpha(src: Seq<u16>, channel: int, alpha: int) -> bool {
    forall|pixel: int| 0 <= pixel < 8 ==> #[trigger] src[4 * pixel + channel] == alpha
}

/// Without an alpha channel the destination becomes the source's bytes: the
/// first `dst.len()` lanes, written back as they are.
pub proof fn lemma_copy_identity(src: Seq<u16>, dst: Seq<u8>)
    ensures
        blended(src, dst, AlphaConfig::NoAlpha) == narrowed(src, dst.len()),
{
    assert(blended(src, dst, AlphaConfig::NoAlpha) =~= narrowed(src, dst.len()));
}

/// A source that is opaque in every pixel replaces the destination: with
/// alpha 255 throughout, compositing gives the source's bytes, wherever the
/// alpha channel stands.
pub proof fn lemma_opaque_source(src: Seq<u16>, dst: Seq<u8>, config: AlphaConfig)
    requires
        lanes_in_range(src),
        dst.len() <= 32,
        config.alpha_index() is Some,
        uniform_alpha(src, config.alpha_index().unwrap(), 255),
    ensures
        blended(src, dst, config) == narrowed(src, dst.len()),
{
    let channel = config.alpha_index().unwrap();
    assert forall|lane: int| 0 <= lane < dst.len() implies blend_lane(src, dst, config, lane)
        == src[lane] by {
        let pixel = lane / 4;
        assert(alpha_lane(lane, channel) == 4 * pixel + channel);
        assert(src[4 * pixel + channel] == 255);
        let s = src[lane] as int;
        assert((s * 255 + (dst[lane] as int) * (255 - 255)) / 255 == s) by (nonlinear_arith);
    }
    assert(blended(src, dst, config) =~= narrowed(src, dst.len()));
}

/// A source that is transparent in every pixel leaves the destination as it
/// is: with alpha 0 throughout, compositing gives the destination's bytes,
/// wherever the alpha channel stands.
pub proof fn lemma_transparent_source(src: Seq<u16>, dst: Seq<u8>, config: AlphaConfig)
    requires
        lanes_in_range(src),
        dst.len() <= 32,
        config.alpha_index() is Some,
        uniform_alpha(src, config.alpha_index().unwrap(), 0),
    ensures
        blended(src, dst, config) == dst,
{
    let channel = config.alpha_index().unwrap();
    assert forall|lane: int| 0 <= lane < dst.len() implies blend_lane(src, dst, config, lane)
        == dst[lane] by {
        let pixel = lane / 4;
        assert(alpha_lane(lane, channel) == 4 * pixel + channel);
        assert(src[4 * pixel + channel] == 0);
        let d = dst[lane] as int;
        assert(((src[lane] as int) * 0 + d * (255 - 0)) / 255 == d) by (nonlinear_arith);
    }
    assert(blended(src, dst, config) =~= dst);
}

/// The number of lanes in the pixels that a destination of `len` bytes
/// reaches into: `len` rounded up to whole pixels.
pub open spec fn live_lanes(len: nat) -> int {
    (len as int + 3) / 4 * 4
}

/// Compositing reads the source pack only in the pixels that the destination
/// reaches into: two packs that agree there give the same bytes. The lanes
/// of the pixels behind the destination's end are never observed.
pub proof fn lemma_blend_reads_live_pixels(
    src: Seq<u16>,
    other: Seq<u16>,
    dst: Seq<u8>,
    config: AlphaConfig,
)
    requires
        forall|lane: int| 0 <= lane < live_lanes(dst.len()) ==> src[lane] == other[lane],
    ensures
        blended(src, dst, config) == blended(other, dst, config),
{
    assert forall|lane: int| 0 <= lane < dst.len() implies blend_lane(src, dst, config, lane)
        == blend_lane(other, dst, config, lane) by {
        match config.alpha_index() {
            Some(channel) => {
                let alpha = alpha_lane(lane, channel);
                assert(0 <= alpha < live_lanes(dst.len()));
            },
            None => {},
        }
    }
    assert(blended(src, dst, config) =~= blended(other, dst, config));
}

/// The table that sends every lane to the lane `byte` of its own pixel.
pub fn gen_swizzle(byte: usize) -> (table: [usize; 32])
    requires
        byte + 28 <= usize::MAX,
    ensures
        forall|lane: int|
            0 <= lane < 32 ==> #[trigger] table[lane] == alpha_lane(lane, byte as int),
{
    let mut table: [usize; 32] = [byte; 32];
    let mut i: usize = 0;
    while i < 32
        invariant
            i <= 32,
            byte + 28 <= usize::MAX,
            forall|lane: int|
                0 <= lane < i ==> #[trigger] table[lane] == alpha_lane(lane, byte as int),
            forall|lane: int| i <= lane < 32 ==> #[trigger] table[lane] == byte,
        decreases 32 - i,
    {
        assert(i & !3 == i - i % 4) by (bit_vector)
            requires
                i < 32,
        ;
        table[i] = table[i] + (i & !3);
        i += 1;
    }
    table
}

/// Composites up to eight pixels of `src` over `dst`, in place.
pub fn blend8(src: EightPixels, dst: &mut [u8], alpha_config: AlphaConfig)
    requires
        old(dst)@.len() <= 32,
    ensures
        final(dst)@ == blended(src@, old(dst)@, alpha_config),
        final(dst)@.len() == old(dst)@.len(),
        lanes_in_range(src@),
{
    let alpha_channel: usize = match alpha_config {
        AlphaConfig::Byte0 => 0,
        AlphaConfig::Byte1 => 1,
        AlphaConfig::Byte2 => 2,
        AlphaConfig::Byte3 => 3,
        AlphaConfig::NoAlpha => {
            src.write(dst);
            proof {
                lemma_copy_identity(src@, old(dst)@);
            }
            return ;
        },
    };
    let dst_p = EightPixels::new(dst);
    let src_lanes = src.lanes();
    let dst_lanes = dst_p.lanes();
    let swizzle = gen_swizzle(alpha_channel);
    let u8_max: u16 = 255;

    let mut result: [u16; 32] = [0u16; 32];
    let mut i: usize = 0;
    while i < 32
        invariant
            i <= 32,
            u8_max == 255,
            alpha_config.alpha_index() == Some(alpha_channel as int),
            alpha_channel < 4,
            src_lanes@ == src@,
            dst_lanes@ == dst_p@,
            lanes_in_range(src@),
            lanes_in_range(dst_p@),
            forall|lane: int|
                0 <= lane < 32 ==> #[trigger] swizzle[lane] == alpha_lane(
                    lane,
                    alpha_channel as int,
                ),
            forall|lane: int|
                0 <= lane < i ==> #[trigger] result[lane] == blend_channel(
                    src@[lane] as int,
                    dst_p@[lane] as int,
                    src@[alpha_lane(lane, alpha_channel as int)] as int,
                ),
            forall|lane: int| 0 <= lane < i ==> #[trigger] result[lane] <= 255,
        decreases 32 - i,
    {
        let a: usize = swizzle[i];
        let src_a: u16 = src_lanes[a];
        let dst_a: u16 = u8_max - src_a;
        proof {
            lemma_blend_channel_bounds(
                src_lanes[i as int] as int,
                dst_lanes[i as int] as int,
                src_a as int,
            );
        }
        result[i] = ((src_lanes[i] * src_a) + (dst_lanes[i] * dst_a)) / u8_max;
        i += 1;
    }
    let blended_pack = EightPixels::from_lanes(result);
    blended_pack.write(dst);
    assert(dst@ =~= blended(src@, old(dst)@, alpha_config));
}

} // verus!
