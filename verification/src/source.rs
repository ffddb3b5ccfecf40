//! The pixel storage that the sampling kernel reads from.

use vstd::prelude::*;

verus! {

/// Two-dimensional pixel storage, indexed row by row.
///
/// The four `spec` functions are the storage's model: what it holds, as the
/// kernels' contracts speak of it. Each executable method returns what the
/// model says, so a storage answers the same question the same way every
/// time. An implementation in verified code states its model and is proved
/// against it. One in ordinary code leaves the model as it stands here,
/// unspecified: nothing proves that its methods keep to one, and what the
/// kernels promise of it rests on that.
///
/// The kernels call [`PixelArray::get`] below [`PixelArray::length`] only.
/// They do not need the length to be the width times the height: a sample is
/// read where its column, its row and its linear index are all in range.
pub trait PixelArray {
    /// The four channels of the pixel at linear index `index`.
    open spec fn pixel(&self, index: usize) -> [u8; 4] {
        arbitrary()
    }

    /// Pixels per row.
    open spec fn spec_width(&self) -> usize {
        arbitrary()
    }

    /// Number of rows.
    open spec fn spec_height(&self) -> usize {
        arbitrary()
    }

    /// Number of pixels that can be read.
    open spec fn spec_length(&self) -> usize {
        arbitrary()
    }

    /// The pixel at linear index `index`, counted row by row from zero.
    fn get(&self, index: usize) -> (px: [u8; 4])
        requires
            index < self.spec_length(),
        ensures
            px == self.pixel(index),
    ;

    fn width(&self) -> (w: usize)
        ensures
            w == self.spec_width(),
    ;

    fn height(&self) -> (h: usize)
        ensures
            h == self.spec_height(),
    ;

    fn length(&self) -> (l: usize)
        ensures
            l == self.spec_length(),
    ;

    /// Bytes per stored pixel. The kernels read four channels whatever it says.
    fn bytes_per_pixel() -> usize;

    /// Whether the stored pixels carry alpha.
    fn has_alpha() -> bool;
}

} // verus!
