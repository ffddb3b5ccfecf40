//! The pack: eight pixels of four channels, one 16-bit lane per channel.

use vstd::prelude::*;

verus! {

/// The lanes a byte slice of at most 32 bytes widens to: the bytes first,
/// zeros after them.
pub open spec fn widened(bytes: Seq<u8>) -> Seq<u16> {
    Seq::new(32, |i: int| if i < bytes.len() { bytes[i] as u16 } else { 0u16 })
}

/// The first `len` lanes narrowed to bytes.
pub open spec fn narrowed(lanes: Seq<u16>, len: nat) -> Seq<u8> {
    Seq::new(len, |i: int| lanes[i] as u8)
}

/// Every lane holds a channel value, that is at most 255.
pub open spec fn lanes_in_range(lanes: Seq<u16>) -> bool {
    &&& lanes.len() == 32
    &&& forall|i: int| 0 <= i < 32 ==> #[trigger] lanes[i] <= 255
}

/// A pack of eight pixels, lane `4 * p + c` holding channel `c` of pixel `p`.
#[derive(Copy, Clone, Debug)]
pub struct EightPixels([u16; 32]);

impl View for EightPixels {
    type V = Seq<u16>;

    closed spec fn view(&self) -> Seq<u16> {
        self.0@
    }
}

impl EightPixels {
    #[verifier::type_invariant]
    spec fn lanes_are_channels(&self) -> bool {
        forall|i: int| 0 <= i < 32 ==> #[trigger] self.0[i] <= 255
    }

    /// Reads up to eight pixels from a byte slice, four bytes per pixel.
    pub fn new(src: &[u8]) -> (pack: Self)
        requires
            src@.len() <= 32,
        ensures
            pack@ == widened(src@),
            lanes_in_range(pack@),
    {
        let mut lanes: [u16; 32] = [0u16; 32];
        let mut i: usize = 0;
        while i < src.len()
            invariant
                i <= src@.len() <= 32,
                forall|k: int| 0 <= k < i ==> lanes[k] == src@[k] as u16,
                forall|k: int| i <= k < 32 ==> lanes[k] == 0,
            decreases src@.len() - i,
        {
            lanes[i] = src[i] as u16;
            i += 1;
        }
        let pack = EightPixels(lanes);
        assert(pack@ =~= widened(src@));
        pack
    }

    /// The lanes themselves.
    pub(crate) fn lanes(&self) -> (lanes: [u16; 32])
        ensures
            lanes@ == self@,
            lanes_in_range(self@),
    {
        proof {
            use_type_invariant(self);
        }
        self.0
    }

    /// A pack of the given lanes, each of which holds a channel value.
    pub(crate) fn from_lanes(lanes: [u16; 32]) -> (pack: Self)
        requires
            lanes_in_range(lanes@),
        ensures
            pack@ == lanes@,
    {
        EightPixels(lanes)
    }

    /// Writes the first `dst.len()` lanes to a byte slice, four bytes per pixel.
    pub fn write(&self, dst: &mut [u8])
        requires
            old(dst)@.len() <= 32,
        ensures
            final(dst)@ == narrowed(self@, old(dst)@.len()),
            final(dst)@.len() == old(dst)@.len(),
            lanes_in_range(self@),
    {
        proof {
            use_type_invariant(self);
        }
        let len: usize = dst.len();
        let mut i: usize = 0;
        while i < len
            invariant
                i <= len <= 32,
                dst@.len() == len,
                forall|k: int| 0 <= k < 32 ==> #[trigger] self.0[k] <= 255,
                forall|k: int| 0 <= k < i ==> dst@[k] == self.0[k] as u8,
            decreases len - i,
        {
            dst[i] = self.0[i] as u8;
            i += 1;
        }
        assert(dst@ =~= narrowed(self@, len as nat));
    }
}

} // verus!
