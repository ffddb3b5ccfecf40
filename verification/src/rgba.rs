//! Pixel arithmetic that the `rgb` crate performs on its `RGBA` type.
//!
//! Each function here hands the four channels of its operands to `rgb` and
//! the four channels of the outcome back. Their contracts are taken from
//! `rgb`'s implementation and are not proved.

use vstd::prelude::*;
use rgb::RGBA;

verus! {

/// Widens the four channels of a pixel to 16 bits each, by `rgb`'s
/// `From<RGBA<u8>> for RGBA<u16>`, which converts channel by channel: every
/// channel keeps its value.
#[verifier::external_body]
pub(crate) fn widen(px: [u8; 4]) -> (wide: [u16; 4])
    ensures
        forall|c: int| 0 <= c < 4 ==> wide[c] == px[c],
{
    let wide = RGBA::<u16>::from(RGBA::<u8> { r: px[0], g: px[1], b: px[2], a: px[3] });
    [wide.r, wide.g, wide.b, wide.a]
}

/// Adds two pixels by `rgb`'s `AddAssign` for `RGBA`, which adds channel by
/// channel with `+`; no channel's sum may leave the 16 bits.
#[verifier::external_body]
pub(crate) fn add_pixel(acc: [u16; 4], px: [u16; 4]) -> (sum: [u16; 4])
    requires
        forall|c: int| 0 <= c < 4 ==> acc[c] + px[c] <= u16::MAX,
    ensures
        forall|c: int| 0 <= c < 4 ==> sum[c] == acc[c] + px[c],
{
    let mut sum = RGBA::<u16> { r: acc[0], g: acc[1], b: acc[2], a: acc[3] };
    sum += RGBA::<u16> { r: px[0], g: px[1], b: px[2], a: px[3] };
    [sum.r, sum.g, sum.b, sum.a]
}

/// Divides a pixel by `rgb`'s `DivAssign<u16>` for `RGBA<u16>`, which divides
/// every channel by the same divisor with `/`; the divisor is not zero.
#[verifier::external_body]
pub(crate) fn div_pixel(acc: [u16; 4], divisor: u16) -> (quotient: [u16; 4])
    requires
        divisor > 0,
    ensures
        forall|c: int| 0 <= c < 4 ==> quotient[c] == acc[c] / divisor,
{
    let mut quotient = RGBA::<u16> { r: acc[0], g: acc[1], b: acc[2], a: acc[3] };
    quotient /= divisor;
    [quotient.r, quotient.g, quotient.b, quotient.a]
}

} // verus!
