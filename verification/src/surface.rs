//! The display surface: a fixed 25x80 grid of two-byte character cells,
//! each accessed only through volatile reads and writes so that the
//! backing device memory sees every single store.

use vstd::prelude::*;

use crate::colour::Colour;

verus! {

/// Rows of the display grid.
pub const BUFFER_HEIGHT: usize = 25;

/// Columns of the display grid.
pub const BUFFER_WIDTH: usize = 80;

/// One character cell: a character code and the attribute it was stamped
/// with. On the wire this is one 16-bit word, character in the low byte.
#[derive(Debug, Clone, Copy, PartialEq, Eq)]
pub struct ScreenChar {
    pub ascii_char: u8,
    pub colour: Colour,
}

/// The 16-bit word the hardware holds for a cell with character `ch` and
/// attribute `attr`: attribute in the high byte, character in the low byte.
pub open spec fn pack_cell(ch: u8, attr: u8) -> u16 {
    (attr * 256 + ch) as u16
}

/// The character byte of a raw cell word.
pub open spec fn char_of(w: u16) -> u8 {
    (w % 256) as u8
}

/// The attribute byte of a raw cell word.
pub open spec fn attr_of(w: u16) -> u8 {
    (w / 256) as u8
}

/// Packing a character and an attribute and reading the two bytes back
/// returns exactly the pair that went in, and packing is injective in it.
pub proof fn lemma_pack_unpack(ch: u8, attr: u8)
    ensures
        char_of(pack_cell(ch, attr)) == ch,
        attr_of(pack_cell(ch, attr)) == attr,
{
    assert((attr * 256 + ch) % 256 == ch && (attr * 256 + ch) / 256 == attr) by (nonlinear_arith)
        requires
            ch < 256,
            attr < 256,
    ;
}

/// Every raw cell word is the packing of its own two bytes.
pub proof fn lemma_word_roundtrip(w: u16)
    ensures
        pack_cell(char_of(w), attr_of(w)) == w,
{
    assert((w / 256) * 256 + (w % 256) == w) by (nonlinear_arith);
}

/// The flat row-major index of the cell at `(row, col)`.
pub open spec fn cell_index(row: int, col: int) -> int {
    row * 80 + col
}

/// Declares volatile::Volatile, the wrapper whose reads and writes the
/// compiler may neither reorder nor elide, so it can stand in fields here.
#[verifier::external_type_specification]
#[verifier::external_body]
#[verifier::reject_recursive_types(T)]
pub struct ExVolatile<T: Copy>(volatile::Volatile<T>);

/// The 16-bit word a volatile cell currently holds.
pub uninterp spec fn volatile_value(v: volatile::Volatile<u16>) -> u16;

/// Relies on volatile::Volatile::new: the returned wrapper holds exactly
/// the given value.
#[verifier::external_body]
fn volatile_new(w: u16) -> (v: volatile::Volatile<u16>)
    ensures
        volatile_value(v) == w,
{
    volatile::Volatile::new(w)
}

/// Relies on volatile::Volatile::read: a volatile load that returns a copy
/// of the wrapped value.
#[verifier::external_body]
fn volatile_read(v: &volatile::Volatile<u16>) -> (w: u16)
    ensures
        w == volatile_value(*v),
{
    v.read()
}

/// Relies on volatile::Volatile::write on one element of the vector: a
/// volatile store that replaces the wrapped value of that element alone.
#[verifier::external_body]
fn volatile_write_at(cells: &mut Vec<volatile::Volatile<u16>>, i: usize, w: u16)
    requires
        i < old(cells)@.len(),
    ensures
        final(cells)@.len() == old(cells)@.len(),
        volatile_value(final(cells)@[i as int]) == w,
        forall|j: int|
            0 <= j < old(cells)@.len() && j != i ==> final(cells)@[j] == old(cells)@[j],
{
    cells[i].write(w)
}

/// The display surface: the grid of volatile cells the rendering hardware
/// reads. Its view is the sequence of raw 16-bit cell words, row-major.
pub struct Surface {
    cells: Vec<volatile::Volatile<u16>>,
}

impl Surface {
    /// The surface covers exactly the 25x80 grid.
    pub closed spec fn wf(&self) -> bool {
        self.cells@.len() == 2000
    }

    /// The raw cell words, row-major.
    pub closed spec fn view(&self) -> Seq<u16> {
        self.cells@.map_values(|v: volatile::Volatile<u16>| volatile_value(v))
    }

    /// A well-formed surface always views as exactly the 2000 grid words.
    pub broadcast proof fn lemma_wf_len(&self)
        ensures
            #[trigger] self.wf() ==> self@.len() == 2000,
    {
    }

    /// A fresh surface with every cell holding the given character cell.
    pub fn new(fill: ScreenChar) -> (s: Surface)
        ensures
            s.wf(),
            s@.len() == 2000,
            forall|i: int| 0 <= i < 2000 ==> s@[i] == pack_cell(fill.ascii_char, fill.colour@),
    {
        let w = encode_cell(fill);
        let mut cells: Vec<volatile::Volatile<u16>> = Vec::new();
        while cells.len() < 2000
            invariant
                cells@.len() <= 2000,
                w == pack_cell(fill.ascii_char, fill.colour@),
                forall|i: int| 0 <= i < cells@.len() ==> volatile_value(cells@[i]) == pack_cell(
                    fill.ascii_char,
                    fill.colour@,
                ),
            decreases 2000 - cells@.len(),
        {
            let ghost prev = cells@;
            cells.push(volatile_new(w));
            proof {
                assert(forall|i: int|
                    0 <= i < prev.len() ==> cells@[i] == #[trigger] prev[i]);
                assert(cells@[prev.len() as int] == cells@.last());
            }
        }
        let s = Surface { cells };
        proof {
            assert(forall|i: int| 0 <= i < 2000 ==> s@[i] == volatile_value(s.cells@[i]));
        }
        s
    }

    /// Reads the cell at `(row, col)` with one volatile load.
    pub fn read_cell(&self, row: usize, col: usize) -> (c: ScreenChar)
        requires
            self.wf(),
            row < 25,
            col < 80,
        ensures
            c.ascii_char == char_of(self@[cell_index(row as int, col as int)]),
            c.colour@ == attr_of(self@[cell_index(row as int, col as int)]),
    {
        let w = volatile_read(&self.cells[row * 80 + col]);
        ScreenChar { ascii_char: (w % 256) as u8, colour: Colour::from_byte((w / 256) as u8) }
    }

    /// Writes the cell at `(row, col)` with one volatile store. Character
    /// and attribute are stored together, as a single 16-bit word.
    pub fn write_cell(&mut self, row: usize, col: usize, c: ScreenChar)
        requires
            old(self).wf(),
            row < 25,
            col < 80,
        ensures
            final(self).wf(),
            final(self)@ == old(self)@.update(
                cell_index(row as int, col as int),
                pack_cell(c.ascii_char, c.colour@),
            ),
    {
        let w = encode_cell(c);
        volatile_write_at(&mut self.cells, row * 80 + col, w);
        proof {
            assert(self@ =~= old(self)@.update(
                cell_index(row as int, col as int),
                pack_cell(c.ascii_char, c.colour@),
            ));
        }
    }
}

/// The raw 16-bit word for a character cell.
fn encode_cell(c: ScreenChar) -> (w: u16)
    ensures
        w == pack_cell(c.ascii_char, c.colour@),
{
    (c.colour.byte() as u16) * 256 + (c.ascii_char as u16)
}

} // verus!
