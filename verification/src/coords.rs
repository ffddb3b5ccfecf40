//! The table of sub-pixel coordinates that drives the sampling kernel.

use vstd::prelude::*;

verus! {

/// One entry of the table: the output pixel that the sample adds to, and the
/// column and row of the source at which it is read.
#[derive(Debug, Copy, Clone, PartialEq, Eq, Structural)]
pub struct Entry {
    pub slot: usize,
    pub x: usize,
    pub y: usize,
}

/// The entry that was never set: each of its three fields is `usize::MAX`.
/// No source has a pixel there: a width is at most `usize::MAX`, so no
/// column is below it.
pub open spec fn unset() -> Entry {
    Entry { slot: usize::MAX, x: usize::MAX, y: usize::MAX }
}

/// The table in which every entry is unset: `sub_pixels` rows of eight.
pub open spec fn all_unset(sub_pixels: nat) -> Seq<Seq<Entry>> {
    Seq::new(sub_pixels, |i: int| Seq::new(8, |j: int| unset()))
}

/// A table has `sub_pixels` rows of eight entries.
pub open spec fn is_table(table: Seq<Seq<Entry>>, sub_pixels: nat) -> bool {
    &&& table.len() == sub_pixels
    &&& forall|i: int| 0 <= i < sub_pixels ==> (#[trigger] table[i]).len() == 8
}

/// The table with the entry in row `sub_pixel`, column `pixel` replaced by
/// `entry`, and every other entry as it was.
pub open spec fn with_entry(
    table: Seq<Seq<Entry>>,
    sub_pixel: int,
    pixel: int,
    entry: Entry,
) -> Seq<Seq<Entry>> {
    table.update(sub_pixel, table[sub_pixel].update(pixel, entry))
}

/// Every entry names its own column as its output pixel, or has the column
/// `usize::MAX`, at which no source can be read. So an entry that is read
/// adds to the output pixel of the column it stands in.
pub open spec fn names_columns(table: Seq<Seq<Entry>>) -> bool {
    forall|i: int, j: int|
        0 <= i < table.len() && 0 <= j < 8 ==> {
            ||| (#[trigger] table[i][j]).slot == j
            ||| table[i][j].x == usize::MAX
        }
}

/// The table on which nothing was set names its columns: no entry of it can
/// be read.
pub proof fn lemma_unset_names_columns(sub_pixels: nat)
    ensures
        is_table(all_unset(sub_pixels), sub_pixels),
        names_columns(all_unset(sub_pixels)),
{
}

/// Setting an entry that names its own column keeps a table that names its
/// columns so, whatever the entry's coordinates.
pub proof fn lemma_set_names_columns(
    table: Seq<Seq<Entry>>,
    sub_pixel: int,
    pixel: int,
    entry: Entry,
)
    requires
        is_table(table, table.len()),
        names_columns(table),
        0 <= sub_pixel < table.len(),
        0 <= pixel < 8,
        entry.slot == pixel,
    ensures
        is_table(with_entry(table, sub_pixel, pixel, entry), table.len()),
        names_columns(with_entry(table, sub_pixel, pixel, entry)),
{
    let after = with_entry(table, sub_pixel, pixel, entry);
    assert forall|i: int, j: int| 0 <= i < after.len() && 0 <= j < 8 implies {
        ||| (#[trigger] after[i][j]).slot == j
        ||| after[i][j].x == usize::MAX
    } by {
        if i != sub_pixel || j != pixel {
            assert(after[i][j] == table[i][j]);
        }
    }
}

/// The last value set at an entry is the one that stays: setting it twice
/// gives the table that the second setting alone gives.
pub proof fn lemma_set_overwrites(
    table: Seq<Seq<Entry>>,
    sub_pixel: int,
    pixel: int,
    first: Entry,
    second: Entry,
)
    requires
        0 <= sub_pixel < table.len(),
        0 <= pixel < table[sub_pixel].len(),
    ensures
        with_entry(with_entry(table, sub_pixel, pixel, first), sub_pixel, pixel, second)
            == with_entry(table, sub_pixel, pixel, second),
{
    let once = with_entry(table, sub_pixel, pixel, second);
    let twice = with_entry(with_entry(table, sub_pixel, pixel, first), sub_pixel, pixel, second);
    assert(twice[sub_pixel] =~= once[sub_pixel]);
    assert(twice =~= once);
}

/// The source coordinates of `SSAA_SQ` sub-pixel samples for each of up to
/// eight output pixels.
///
/// As a table it is `SSAA_SQ` rows of eight entries: row `i`, column `j` is
/// sample `i` of output pixel `j`, and holds the output pixel that the
/// sample adds to beside the column and row at which it is read.
pub struct SsaaCoords<const SSAA_SQ: usize> {
    src_o: [[usize; 8]; SSAA_SQ],
    src_x: [[usize; 8]; SSAA_SQ],
    src_y: [[usize; 8]; SSAA_SQ],
}

impl<const SSAA_SQ: usize> View for SsaaCoords<SSAA_SQ> {
    type V = Seq<Seq<Entry>>;

    closed spec fn view(&self) -> Seq<Seq<Entry>> {
        Seq::new(
            SSAA_SQ as nat,
            |i: int|
                Seq::new(
                    8,
                    |j: int|
                        Entry { slot: self.src_o[i][j], x: self.src_x[i][j], y: self.src_y[i][j] },
                ),
        )
    }
}

impl<const SSAA_SQ: usize> SsaaCoords<SSAA_SQ> {
    /// What holds of every table: it names its columns.
    #[verifier::type_invariant]
    pub open spec fn well_formed(&self) -> bool {
        names_columns(self@)
    }

    /// That the table names its columns, said of the three arrays.
    spec fn slots_match_columns(&self) -> bool {
        forall|i: int, j: int|
            0 <= i < SSAA_SQ && 0 <= j < 8 ==> {
                ||| #[trigger] self.src_o[i][j] == j
                ||| self.src_x[i][j] == usize::MAX
            }
    }

    /// The table names its columns exactly if its arrays say so.
    proof fn lemma_slots_match_columns(&self)
        ensures
            names_columns(self@) <==> self.slots_match_columns(),
    {
        if names_columns(self@) {
            assert forall|i: int, j: int| 0 <= i < SSAA_SQ && 0 <= j < 8 implies {
                ||| #[trigger] self.src_o[i][j] == j
                ||| self.src_x[i][j] == usize::MAX
            } by {
                assert(self@[i][j].slot == self.src_o[i][j]);
            }
        }
    }

    /// The table has `SSAA_SQ` rows of eight entries.
    pub proof fn lemma_shape(&self)
        ensures
            is_table(self@, SSAA_SQ as nat),
    {
    }

    /// The entry of sample `sub_pixel` of output pixel `pixel`.
    pub fn entry(&self, pixel: usize, sub_pixel: usize) -> (entry: Entry)
        requires
            pixel < 8,
            sub_pixel < SSAA_SQ,
        ensures
            entry == self@[sub_pixel as int][pixel as int],
    {
        Entry {
            slot: self.src_o[sub_pixel][pixel],
            x: self.src_x[sub_pixel][pixel],
            y: self.src_y[sub_pixel][pixel],
        }
    }

    /// A table with every entry unset: all three fields of each are
    /// `usize::MAX`.
    pub fn new() -> (coords: Self)
        ensures
            coords@ == all_unset(SSAA_SQ as nat),
            names_columns(coords@),
    {
        let full_usize_max: [usize; 8] = [usize::MAX; 8];
        let coords = Self {
            src_o: [full_usize_max; SSAA_SQ],
            src_x: [full_usize_max; SSAA_SQ],
            src_y: [full_usize_max; SSAA_SQ],
        };
        assert(coords@ =~~= all_unset(SSAA_SQ as nat));
        coords
    }

    /// Sets sample `sub_pixel` of output pixel `pixel`: the entry names
    /// `pixel` as its output pixel and is read at column `x` of row `y`. The
    /// coordinates are not held to any range. No other entry changes.
    pub fn set(&mut self, pixel: usize, sub_pixel: usize, x: usize, y: usize)
        requires
            pixel < 8,
            sub_pixel < SSAA_SQ,
        ensures
            final(self)@ == with_entry(
                old(self)@,
                sub_pixel as int,
                pixel as int,
                (Entry { slot: pixel, x, y }),
            ),
            names_columns(final(self)@),
    {
        proof {
            use_type_invariant(&*self);
            self.lemma_slots_match_columns();
        }
        self.src_o[sub_pixel][pixel] = pixel;
        assert(self.slots_match_columns());
        self.src_x[sub_pixel][pixel] = x;
        assert(self.slots_match_columns());
        self.src_y[sub_pixel][pixel] = y;
        proof {
            assert(self@ =~~= with_entry(
                old(self)@,
                sub_pixel as int,
                pixel as int,
                Entry { slot: pixel, x, y },
            ));
            use_type_invariant(&*self);
        }
    }
}

} // verus!
