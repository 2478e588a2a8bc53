//! The stateful cursor-and-colour writer that mutates the display surface:
//! it appends characters on the last row, wraps and scrolls on overflow,
//! and substitutes a sentinel for bytes the hardware font cannot render.

use vstd::prelude::*;
use vstd::string::StringSliceAdditionalSpecFns;

use crate::colour::Colour;
use crate::surface::{
    attr_of, cell_index, char_of, pack_cell, ScreenChar, Surface, BUFFER_HEIGHT, BUFFER_WIDTH,
};

verus! {

broadcast use crate::surface::Surface::lemma_wf_len;

/// The byte written in place of input that is neither printable ASCII
/// nor a newline.
pub const SENTINEL: u8 = 0xfe;

/// The raw cell word of a blank cell (an ASCII space) under `attr`.
pub open spec fn blank_word(attr: u8) -> u16 {
    pack_cell(0x20, attr)
}

/// The grid after one scroll under attribute `attr`: every row moves up
/// one, row 0 is discarded, and the last row becomes blank.
pub open spec fn scrolled(g: Seq<u16>, attr: u8) -> Seq<u16> {
    Seq::new(2000, |i: int| if i < 1920 { g[i + 80] } else { blank_word(attr) })
}

/// The grid after row `row` is filled with blank cells under `attr`.
pub open spec fn row_cleared(g: Seq<u16>, row: int, attr: u8) -> Seq<u16> {
    Seq::new(g.len(), |i: int| if row * 80 <= i < row * 80 + 80 { blank_word(attr) } else { g[i] })
}

/// One `write_byte` step on a grid and cursor column, under attribute
/// `attr`: a newline scrolls; a full line scrolls and then takes the byte
/// at column 0; otherwise the byte lands at the cursor on the last row.
pub open spec fn write_step(g: Seq<u16>, col: int, attr: u8, b: u8) -> (Seq<u16>, int) {
    if b == 10 {
        (scrolled(g, attr), 0)
    } else if col >= 80 {
        (scrolled(g, attr).update(cell_index(24, 0), pack_cell(b, attr)), 1)
    } else {
        (g.update(cell_index(24, col), pack_cell(b, attr)), col + 1)
    }
}

/// The substitution `write_string` applies to each input byte: printable
/// ASCII and newline pass through, everything else becomes the sentinel.
pub open spec fn substituted(b: u8) -> u8 {
    if (0x20 <= b && b <= 0x7e) || b == 10 {
        b
    } else {
        SENTINEL
    }
}

/// The grid and cursor column after writing the bytes of `bs` in order,
/// each substituted and then applied as one `write_step`.
pub open spec fn write_run(g: Seq<u16>, col: int, attr: u8, bs: Seq<u8>) -> (Seq<u16>, int)
    decreases bs.len(),
{
    if bs.len() == 0 {
        (g, col)
    } else {
        let stepped = write_step(g, col, attr, substituted(bs[0]));
        write_run(stepped.0, stepped.1, attr, bs.drop_first())
    }
}

/// The character-cell writer: a cursor column, the attribute to stamp on
/// new cells, and exclusive ownership of the display surface.
pub struct Writer {
    col_pos: usize,
    colour: Colour,
    buffer: Surface,
}

impl Writer {
    /// The writer's surface covers the grid and its cursor never passes
    /// one place beyond the last column.
    pub closed spec fn wf(&self) -> bool {
        self.buffer.wf() && self.col_pos <= 80
    }

    /// The raw cell words of the owned surface, row-major.
    pub closed spec fn grid(&self) -> Seq<u16> {
        self.buffer@
    }

    /// The cursor column.
    pub closed spec fn col(&self) -> int {
        self.col_pos as int
    }

    /// The attribute byte stamped on cells written from now on.
    pub closed spec fn attr(&self) -> u8 {
        self.colour@
    }

    /// A writer over the given surface, cursor at column 0.
    pub fn new(buffer: Surface, colour: Colour) -> (w: Writer)
        requires
            buffer.wf(),
        ensures
            w.wf(),
            w.grid() == buffer@,
            w.col() == 0,
            w.attr() == colour@,
    {
        Writer { col_pos: 0, colour, buffer }
    }

    /// Replaces the attribute for subsequent writes; nothing already on
    /// the surface changes, and the cursor stays where it was.
    pub fn set_colour(&mut self, colour: Colour)
        ensures
            final(self).wf() == old(self).wf(),
            final(self).grid() == old(self).grid(),
            final(self).col() == old(self).col(),
            final(self).attr() == colour@,
    {
        self.colour = colour;
    }

    /// The cursor column, for callers that inspect the writer.
    pub fn column(&self) -> (c: usize)
        ensures
            c == self.col(),
    {
        self.col_pos
    }

    /// The attribute currently stamped on new cells.
    pub fn colour(&self) -> (c: Colour)
        ensures
            c@ == self.attr(),
    {
        self.colour
    }

    /// Reads one cell of the owned surface back.
    pub fn read_cell(&self, row: usize, col: usize) -> (c: ScreenChar)
        requires
            self.wf(),
            row < 25,
            col < 80,
        ensures
            c.ascii_char == char_of(self.grid()[cell_index(row as int, col as int)]),
            c.colour@ == attr_of(self.grid()[cell_index(row as int, col as int)]),
    {
        self.buffer.read_cell(row, col)
    }

    /// Fills every column of row `row` with a blank cell stamped with the
    /// writer's current attribute. The cursor does not move.
    pub fn clear_row(&mut self, row: usize)
        requires
            old(self).wf(),
            row < 25,
        ensures
            final(self).wf(),
            final(self).grid() == row_cleared(old(self).grid(), row as int, old(self).attr()),
            final(self).col() == old(self).col(),
            final(self).attr() == old(self).attr(),
    {
        let blank_char = ScreenChar { ascii_char: 0x20, colour: self.colour };
        let mut col: usize = 0;
        while col < BUFFER_WIDTH
            invariant
                self.wf(),
                col <= 80,
                row < 25,
                blank_char.ascii_char == 0x20,
                blank_char.colour@ == old(self).attr(),
                self.col() == old(self).col(),
                self.attr() == old(self).attr(),
                self.grid().len() == 2000,
                old(self).grid().len() == 2000,
                forall|i: int|
                    row * 80 <= i < row * 80 + col ==> self.grid()[i] == blank_word(
                        old(self).attr(),
                    ),
                forall|i: int|
                    0 <= i < 2000 && !(row * 80 <= i < row * 80 + col) ==> self.grid()[i] == old(
                        self,
                    ).grid()[i],
            decreases 80 - col,
        {
            self.buffer.write_cell(row, col, blank_char);
            col = col + 1;
        }
        proof {
            assert(self.grid() =~= row_cleared(old(self).grid(), row as int, old(self).attr()));
        }
    }

    /// Scrolls: every row moves up one (row 0 is discarded for good), the
    /// last row becomes blank under the current attribute, and the cursor
    /// returns to column 0.
    pub fn new_line(&mut self)
        requires
            old(self).wf(),
        ensures
            final(self).wf(),
            final(self).grid() == scrolled(old(self).grid(), old(self).attr()),
            final(self).col() == 0,
            final(self).attr() == old(self).attr(),
    {
        let mut row: usize = 1;
        while row < BUFFER_HEIGHT
            invariant
                self.wf(),
                1 <= row <= 25,
                self.attr() == old(self).attr(),
                self.grid().len() == 2000,
                old(self).grid().len() == 2000,
                forall|i: int|
                    0 <= i < (row - 1) * 80 ==> self.grid()[i] == old(self).grid()[i + 80],
                forall|i: int|
                    (row - 1) * 80 <= i < 2000 ==> self.grid()[i] == old(self).grid()[i],
            decreases 25 - row,
        {
            let mut col: usize = 0;
            while col < BUFFER_WIDTH
                invariant
                    self.wf(),
                    1 <= row < 25,
                    col <= 80,
                    self.attr() == old(self).attr(),
                    self.grid().len() == 2000,
                    old(self).grid().len() == 2000,
                    forall|i: int|
                        0 <= i < (row - 1) * 80 + col ==> self.grid()[i] == old(self).grid()[i
                            + 80],
                    forall|i: int|
                        (row - 1) * 80 + col <= i < 2000 ==> self.grid()[i] == old(self).grid()[i],
                decreases 80 - col,
            {
                let ghost w = self.grid()[cell_index(row as int, col as int)];
                let character = self.buffer.read_cell(row, col);
                proof {
                    crate::surface::lemma_word_roundtrip(w);
                }
                self.buffer.write_cell(row - 1, col, character);
                col = col + 1;
            }
            row = row + 1;
        }
        self.clear_row(BUFFER_HEIGHT - 1);
        self.col_pos = 0;
        proof {
            assert(self.grid() =~= scrolled(old(self).grid(), old(self).attr()));
        }
    }

    /// Appends one byte at the cursor on the last row, stamped with the
    /// current attribute. A newline only scrolls; a byte at a full line
    /// wraps (scrolls first) and lands at column 0; otherwise the byte
    /// lands at the cursor, which then advances by one.
    pub fn write_byte(&mut self, byte: u8)
        requires
            old(self).wf(),
        ensures
            final(self).wf(),
            final(self).attr() == old(self).attr(),
            final(self).grid() == write_step(
                old(self).grid(),
                old(self).col(),
                old(self).attr(),
                byte,
            ).0,
            final(self).col() == write_step(
                old(self).grid(),
                old(self).col(),
                old(self).attr(),
                byte,
            ).1,
            byte == 10 ==> final(self).col() == 0,
    {
        if byte == 10 {
            self.new_line();
        } else {
            if self.col_pos >= BUFFER_WIDTH {
                self.new_line();
            }
            let row = BUFFER_HEIGHT - 1;
            let col = self.col_pos;
            let colour = self.colour;
            self.buffer.write_cell(row, col, ScreenChar { ascii_char: byte, colour });
            self.col_pos = self.col_pos + 1;
        }
    }

    /// Writes the raw bytes of `s` in order, substituting the sentinel for
    /// every byte that is neither printable ASCII nor a newline, so the
    /// surface never holds a byte the hardware font cannot render.
    pub fn write_string(&mut self, s: &str)
        requires
            old(self).wf(),
        ensures
            final(self).wf(),
            final(self).attr() == old(self).attr(),
            final(self).grid() == write_run(
                old(self).grid(),
                old(self).col(),
                old(self).attr(),
                s.spec_bytes(),
            ).0,
            final(self).col() == write_run(
                old(self).grid(),
                old(self).col(),
                old(self).attr(),
                s.spec_bytes(),
            ).1,
    {
        let bytes = s.as_bytes();
        let n = bytes.len();
        let mut k: usize = 0;
        while k < n
            invariant
                self.wf(),
                k <= n,
                n == bytes@.len(),
                bytes@ == s.spec_bytes(),
                self.attr() == old(self).attr(),
                self.grid() == write_run(
                    old(self).grid(),
                    old(self).col(),
                    old(self).attr(),
                    bytes@.take(k as int),
                ).0,
                self.col() == write_run(
                    old(self).grid(),
                    old(self).col(),
                    old(self).attr(),
                    bytes@.take(k as int),
                ).1,
            decreases n - k,
        {
            let b = bytes[k];
            match b {
                0x20..=0x7e | 10 => self.write_byte(b),
                _ => self.write_byte(SENTINEL),
            }
            proof {
                assert(bytes@.take(k + 1) =~= bytes@.take(k as int).push(b));
                lemma_run_snoc(
                    old(self).grid(),
                    old(self).col(),
                    old(self).attr(),
                    bytes@.take(k as int),
                    b,
                );
            }
            k = k + 1;
        }
        proof {
            assert(bytes@.take(n as int) =~= bytes@);
        }
    }
}

/// The sink of the formatted-output entry points: takes the fully
/// assembled text and hands it to `write_string` unchanged.
pub fn _print(writer: &mut Writer, args: &str)
    requires
        old(writer).wf(),
    ensures
        final(writer).wf(),
        final(writer).attr() == old(writer).attr(),
        final(writer).grid() == write_run(
            old(writer).grid(),
            old(writer).col(),
            old(writer).attr(),
            args.spec_bytes(),
        ).0,
        final(writer).col() == write_run(
            old(writer).grid(),
            old(writer).col(),
            old(writer).attr(),
            args.spec_bytes(),
        ).1,
{
    writer.write_string(args);
}

/// Writing one more byte after a run is one more step of the same run:
/// `write_run` folds its byte sequence from the left.
pub proof fn lemma_run_snoc(g: Seq<u16>, col: int, attr: u8, bs: Seq<u8>, b: u8)
    ensures
        write_run(g, col, attr, bs.push(b)).0 == write_step(
            write_run(g, col, attr, bs).0,
            write_run(g, col, attr, bs).1,
            attr,
            substituted(b),
        ).0,
        write_run(g, col, attr, bs.push(b)).1 == write_step(
            write_run(g, col, attr, bs).0,
            write_run(g, col, attr, bs).1,
            attr,
            substituted(b),
        ).1,
    decreases bs.len(),
{
    if bs.len() == 0 {
        let stepped = write_step(g, col, attr, substituted(b));
        assert(bs.push(b)[0] == b);
        assert(bs.push(b).drop_first() =~= Seq::<u8>::empty());
        assert(write_run(stepped.0, stepped.1, attr, Seq::<u8>::empty()) == (stepped.0, stepped.1));
        assert(write_run(g, col, attr, bs) == (g, col));
    } else {
        assert(bs.push(b)[0] == bs[0]);
        assert(bs.push(b).drop_first() =~= bs.drop_first().push(b));
        let stepped = write_step(g, col, attr, substituted(bs[0]));
        lemma_run_snoc(stepped.0, stepped.1, attr, bs.drop_first(), b);
        assert(write_run(g, col, attr, bs.push(b)) == write_run(
            stepped.0,
            stepped.1,
            attr,
            bs.drop_first().push(b),
        ));
        assert(write_run(g, col, attr, bs) == write_run(stepped.0, stepped.1, attr, bs.drop_first()));
    }
}

/// Law: a run of printable bytes that fits on the line lands on the last
/// row, in order, at the columns from the starting cursor on, each cell
/// stamped with the active attribute; every other cell keeps its prior
/// word, and the cursor advances by the run's length.
pub proof fn lemma_printable_run_readback(g: Seq<u16>, col: int, attr: u8, bs: Seq<u8>)
    requires
        g.len() == 2000,
        0 <= col,
        col + bs.len() <= 80,
        forall|i: int| 0 <= i < bs.len() ==> 0x20 <= #[trigger] bs[i] <= 0x7e,
    ensures
        write_run(g, col, attr, bs).0.len() == 2000,
        write_run(g, col, attr, bs).1 == col + bs.len(),
        forall|i: int|
            0 <= i < bs.len() ==> write_run(g, col, attr, bs).0[cell_index(24, col + i)]
                == pack_cell(#[trigger] bs[i], attr),
        forall|j: int|
            0 <= j < 2000 && !(cell_index(24, col) <= j < cell_index(24, col) + bs.len())
                ==> write_run(g, col, attr, bs).0[j] == g[j],
    decreases bs.len(),
{
    if bs.len() == 0 {
    } else {
        let b = bs[0];
        assert(substituted(b) == b);
        let stepped = write_step(g, col, attr, b);
        assert(stepped.0 == g.update(cell_index(24, col), pack_cell(b, attr)));
        lemma_printable_run_readback(stepped.0, col + 1, attr, bs.drop_first());
        let fin = write_run(g, col, attr, bs);
        assert(fin == write_run(stepped.0, col + 1, attr, bs.drop_first()));
        assert forall|i: int| 0 <= i < bs.len() implies fin.0[cell_index(24, col + i)]
            == pack_cell(#[trigger] bs[i], attr) by {
            if i == 0 {
                assert(fin.0[cell_index(24, col)] == stepped.0[cell_index(24, col)]);
            } else {
                assert(bs.drop_first()[i - 1] == bs[i]);
            }
        }
        assert forall|j: int|
            0 <= j < 2000 && !(cell_index(24, col) <= j < cell_index(24, col)
                + bs.len()) implies fin.0[j] == g[j] by {
            assert(!(cell_index(24, col + 1) <= j < cell_index(24, col + 1) + bs.drop_first().len()));
            assert(fin.0[j] == stepped.0[j]);
            assert(j != cell_index(24, col));
        }
    }
}

/// Law: a printable string shorter than the grid width, written from
/// column 0, reads back from the last row at columns `0..len` as exactly
/// its own bytes, in order.
pub proof fn lemma_string_readback(g: Seq<u16>, attr: u8, bs: Seq<u8>)
    requires
        g.len() == 2000,
        bs.len() < 80,
        forall|i: int| 0 <= i < bs.len() ==> 0x20 <= #[trigger] bs[i] <= 0x7e,
    ensures
        write_run(g, 0, attr, bs).1 == bs.len(),
        forall|i: int|
            0 <= i < bs.len() ==> char_of(write_run(g, 0, attr, bs).0[cell_index(24, i)])
                == #[trigger] bs[i],
{
    lemma_printable_run_readback(g, 0, attr, bs);
    assert forall|i: int| 0 <= i < bs.len() implies char_of(
        write_run(g, 0, attr, bs).0[cell_index(24, i)],
    ) == #[trigger] bs[i] by {
        crate::surface::lemma_pack_unpack(bs[i], attr);
    }
}

/// Law: a byte that is neither printable ASCII nor a newline is stored as
/// the sentinel: the cell it lands in holds the sentinel's code and (for
/// any such byte other than the sentinel itself) never the byte that was
/// given.
pub proof fn lemma_unprintable_substituted(g: Seq<u16>, col: int, attr: u8, b: u8)
    requires
        g.len() == 2000,
        0 <= col < 80,
        !(0x20 <= b <= 0x7e),
        b != 10,
    ensures
        substituted(b) == SENTINEL,
        char_of(write_run(g, col, attr, seq![b]).0[cell_index(24, col)]) == SENTINEL,
        b != SENTINEL ==> char_of(write_run(g, col, attr, seq![b]).0[cell_index(24, col)]) != b,
{
    let bs = seq![b];
    assert(bs.drop_first() =~= Seq::<u8>::empty());
    let stepped = write_step(g, col, attr, SENTINEL);
    assert(write_run(g, col, attr, bs) == write_run(stepped.0, stepped.1, attr, bs.drop_first()));
    assert(stepped.0[cell_index(24, col)] == pack_cell(SENTINEL, attr));
    crate::surface::lemma_pack_unpack(SENTINEL, attr);
}

/// Law: a full line of printable bytes followed by one more wraps. The
/// last row's cells move up to the row above, the overflowing byte lands
/// at column 0 of the fresh last row, and the cursor stands at column 1;
/// in particular the first byte no longer reads back at its original
/// place.
pub proof fn lemma_wrap_scrolls(g: Seq<u16>, attr: u8, bs: Seq<u8>)
    requires
        g.len() == 2000,
        bs.len() == 81,
        forall|i: int| 0 <= i < bs.len() ==> 0x20 <= #[trigger] bs[i] <= 0x7e,
    ensures
        write_run(g, 0, attr, bs).1 == 1,
        char_of(write_run(g, 0, attr, bs).0[cell_index(24, 0)]) == bs[80],
        forall|i: int|
            0 <= i < 80 ==> char_of(write_run(g, 0, attr, bs).0[cell_index(23, i)])
                == #[trigger] bs[i],
        bs[80] != bs[0] ==> char_of(write_run(g, 0, attr, bs).0[cell_index(24, 0)]) != bs[0],
{
    let first = bs.take(80);
    lemma_printable_run_readback(g, 0, attr, first);
    let mid = write_run(g, 0, attr, first);
    assert(bs =~= first.push(bs[80]));
    lemma_run_snoc(g, 0, attr, first, bs[80]);
    assert(substituted(bs[80]) == bs[80]);
    let fin = write_step(mid.0, 80, attr, bs[80]);
    assert(fin.0 == scrolled(mid.0, attr).update(cell_index(24, 0), pack_cell(bs[80], attr)));
    crate::surface::lemma_pack_unpack(bs[80], attr);
    assert forall|i: int| 0 <= i < 80 implies char_of(fin.0[cell_index(23, i)])
        == #[trigger] bs[i] by {
        assert(cell_index(23, i) < 1920);
        assert(scrolled(mid.0, attr)[cell_index(23, i)] == mid.0[cell_index(24, i)]);
        assert(mid.0[cell_index(24, i)] == pack_cell(bs.take(80)[i], attr));
        crate::surface::lemma_pack_unpack(bs[i], attr);
    }
}

/// Every cell from row `row` downward is blank under `attr`.
pub open spec fn blank_from(g: Seq<u16>, attr: u8, row: int) -> bool {
    forall|i: int| row * 80 <= i < 2000 ==> g[i] == blank_word(attr)
}

/// One scroll grows the blank region at the bottom of the grid by one
/// row, and an all-blank grid stays all blank.
proof fn lemma_scroll_blanks(g: Seq<u16>, attr: u8, row: int)
    requires
        g.len() == 2000,
        0 <= row <= 25,
        blank_from(g, attr, row),
    ensures
        blank_from(scrolled(g, attr), attr, if row == 0 { 0 } else { row - 1 }),
{
    let lower = if row == 0 { 0 } else { row - 1 };
    assert forall|i: int| lower * 80 <= i < 2000 implies scrolled(g, attr)[i]
        == blank_word(attr) by {
        if i < 1920 {
            assert(g[i + 80] == blank_word(attr));
        }
    }
}

/// Law helper: running nothing but newlines, at least as many as there
/// are rows above the blank region, blanks the whole grid and parks the
/// cursor at column 0.
proof fn lemma_newline_run_blanks(g: Seq<u16>, col: int, attr: u8, bs: Seq<u8>, blank_row: int)
    requires
        g.len() == 2000,
        0 <= blank_row <= 25,
        blank_from(g, attr, blank_row),
        forall|i: int| 0 <= i < bs.len() ==> #[trigger] bs[i] == 10,
        bs.len() >= blank_row,
        bs.len() >= 1,
    ensures
        write_run(g, col, attr, bs).0.len() == 2000,
        write_run(g, col, attr, bs).1 == 0,
        blank_from(write_run(g, col, attr, bs).0, attr, 0),
    decreases bs.len(),
{
    assert(bs[0] == 10);
    assert(substituted(10) == 10);
    let stepped = write_step(g, col, attr, 10);
    assert(stepped.0 == scrolled(g, attr));
    assert(stepped.0.len() == 2000);
    assert(write_run(g, col, attr, bs) == write_run(stepped.0, stepped.1, attr, bs.drop_first()));
    lemma_scroll_blanks(g, attr, blank_row);
    let lower = if blank_row == 0 { 0 } else { blank_row - 1 };
    if bs.len() == 1 {
        assert(bs.drop_first() =~= Seq::<u8>::empty());
        assert(write_run(stepped.0, stepped.1, attr, bs.drop_first()) == (stepped.0, stepped.1));
        assert(lower == 0);
    } else {
        assert(bs.drop_first()[0] == bs[1]);
        assert(forall|i: int|
            0 <= i < bs.drop_first().len() ==> #[trigger] bs.drop_first()[i] == bs[i + 1]);
        lemma_newline_run_blanks(stepped.0, 0, attr, bs.drop_first(), lower);
    }
}

/// Law: twenty-five or more newlines in sequence leave the grid fully
/// blank under the active attribute — every cell equal to the blank cell —
/// and the cursor at column 0.
pub proof fn lemma_newlines_blank(g: Seq<u16>, col: int, attr: u8, bs: Seq<u8>)
    requires
        g.len() == 2000,
        bs.len() >= 25,
        forall|i: int| 0 <= i < bs.len() ==> #[trigger] bs[i] == 10,
    ensures
        write_run(g, col, attr, bs).1 == 0,
        forall|i: int| 0 <= i < 2000 ==> write_run(g, col, attr, bs).0[i] == blank_word(attr),
{
    assert(blank_from(g, attr, 25));
    lemma_newline_run_blanks(g, col, attr, bs, 25);
    assert(blank_from(write_run(g, col, attr, bs).0, attr, 0));
}

/// Law: the attribute is a point-in-time stamp per cell. A byte written
/// under the old attribute keeps it after the colour changes (a colour
/// change touches no cell: see `set_colour`), and a byte written after
/// the change carries the new attribute.
pub proof fn lemma_attribute_stamp(g: Seq<u16>, col: int, a1: u8, a2: u8, b1: u8, b2: u8)
    requires
        g.len() == 2000,
        0 <= col,
        col + 2 <= 80,
        0x20 <= b1 <= 0x7e,
        0x20 <= b2 <= 0x7e,
    ensures
        ({
            let g1 = write_step(g, col, a1, b1).0;
            let g2 = write_step(g1, col + 1, a2, b2).0;
            attr_of(g2[cell_index(24, col)]) == a1 && char_of(g2[cell_index(24, col)]) == b1
                && attr_of(g2[cell_index(24, col + 1)]) == a2 && char_of(
                g2[cell_index(24, col + 1)],
            ) == b2
        }),
{
    crate::surface::lemma_pack_unpack(b1, a1);
    crate::surface::lemma_pack_unpack(b2, a2);
}

} // verus!
