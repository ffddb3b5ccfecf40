//! Alpha compositing and supersampled anti-aliasing on packs of eight RGBA pixels.
//!
//! A pack ([`EightPixels`]) is 32 lanes of 16 bits, four per pixel, each
//! holding a channel value of at most 255. [`blend8`] composites a pack over a
//! destination byte slice, with the alpha byte where an [`AlphaConfig`] says.
//! [`ssaa8`] reads the samples that an [`SsaaCoords`] table names from a
//! [`PixelArray`] and averages them into a pack; [`ssaa8_by_count`] does the
//! same with the number of samples read as the divisor.
//!
//! Every function states what it computes over sequences of lanes and bytes,
//! and is proved to compute it without overflow or out-of-range access. The
//! channel arithmetic on whole pixels is the `rgb` crate's, and is trusted.

pub mod blend;
pub mod coords;
pub mod pack;
mod rgba;
pub mod source;
pub mod ssaa;

pub use blend::{blend8, gen_swizzle, AlphaConfig};
pub use coords::{Entry, SsaaCoords};
pub use pack::EightPixels;
pub use source::PixelArray;
pub use ssaa::{ssaa8, ssaa8_by_count};
