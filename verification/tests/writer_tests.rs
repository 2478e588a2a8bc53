use vga_text::colour::{Colour, Colours};
use vga_text::surface::{ScreenChar, Surface, BUFFER_HEIGHT, BUFFER_WIDTH};
use vga_text::writer::{Writer, _print, SENTINEL};

fn blank(colour: Colour) -> ScreenChar {
    ScreenChar { ascii_char: b' ', colour }
}

fn fresh_writer(colour: Colour) -> Writer {
    Writer::new(Surface::new(blank(colour)), colour)
}

#[test]
fn colour_packs_nibbles() {
    assert_eq!(Colour::new(Colours::WHITE, Colours::BLACK).byte(), 0x0f);
    assert_eq!(Colour::new(Colours::BLACK, Colours::LIGHT_CYAN).byte(), 0xb0);
    assert_eq!(Colour::new(Colours::RED, Colours::BLUE).byte(), 0x14);
    assert_eq!(Colour::new(Colours::YELLOW, Colours::DARK_GRAY).byte(), 0x8e);
}

#[test]
fn palette_codes_match_hardware() {
    assert_eq!(Colours::BLACK.code(), 0);
    assert_eq!(Colours::BLUE.code(), 1);
    assert_eq!(Colours::GREEN.code(), 2);
    assert_eq!(Colours::CYAN.code(), 3);
    assert_eq!(Colours::RED.code(), 4);
    assert_eq!(Colours::MAGENTA.code(), 5);
    assert_eq!(Colours::LIGHT_GRAY.code(), 7);
    assert_eq!(Colours::DARK_GRAY.code(), 8);
    assert_eq!(Colours::LIGHT_CYAN.code(), 11);
    assert_eq!(Colours::PINK.code(), 13);
    assert_eq!(Colours::YELLOW.code(), 14);
    assert_eq!(Colours::WHITE.code(), 15);
}

#[test]
fn colour_byte_round_trip() {
    let c = Colour::from_byte(0x5a);
    assert_eq!(c.byte(), 0x5a);
}

#[test]
fn write_string_readback() {
    let colour = Colour::new(Colours::WHITE, Colours::BLACK);
    let mut w = fresh_writer(colour);
    w.write_string("hello");
    for (i, b) in "hello".bytes().enumerate() {
        let cell = w.read_cell(BUFFER_HEIGHT - 1, i);
        assert_eq!(cell.ascii_char, b);
        assert_eq!(cell.colour, colour);
    }
    assert_eq!(w.column(), 5);
}

#[test]
fn empty_string_changes_nothing() {
    let colour = Colour::new(Colours::WHITE, Colours::BLACK);
    let mut w = fresh_writer(colour);
    w.write_string("ab");
    w.write_string("");
    assert_eq!(w.column(), 2);
    assert_eq!(w.read_cell(BUFFER_HEIGHT - 1, 0).ascii_char, b'a');
    assert_eq!(w.read_cell(BUFFER_HEIGHT - 1, 1).ascii_char, b'b');
}

#[test]
fn unprintable_byte_becomes_sentinel() {
    let colour = Colour::new(Colours::WHITE, Colours::BLACK);
    let mut w = fresh_writer(colour);
    w.write_string("\x01");
    let cell = w.read_cell(BUFFER_HEIGHT - 1, 0);
    assert_eq!(cell.ascii_char, SENTINEL);
    assert_ne!(cell.ascii_char, 0x01);
}

#[test]
fn every_unprintable_byte_becomes_sentinel() {
    let colour = Colour::new(Colours::WHITE, Colours::BLACK);
    // Control bytes below 0x20 (newline excepted) and 0x7f reach the
    // writer as themselves inside a one-character string.
    for b in (0u8..0x20).chain([0x7fu8]) {
        if b == b'\n' {
            continue;
        }
        let mut w = fresh_writer(colour);
        let s = String::from(char::from(b));
        w.write_string(&s);
        let cell = w.read_cell(BUFFER_HEIGHT - 1, 0);
        assert_eq!(cell.ascii_char, SENTINEL);
        assert_ne!(cell.ascii_char, b);
    }
    // A character above ASCII arrives as two bytes, both outside the
    // printable range: both cells get the sentinel.
    let mut w = fresh_writer(colour);
    w.write_string("é");
    assert_eq!(w.column(), 2);
    assert_eq!(w.read_cell(BUFFER_HEIGHT - 1, 0).ascii_char, SENTINEL);
    assert_eq!(w.read_cell(BUFFER_HEIGHT - 1, 1).ascii_char, SENTINEL);
}

#[test]
fn write_byte_stores_raw_byte() {
    // Substitution is write_string's business: write_byte stores the byte
    // it was given.
    let colour = Colour::new(Colours::WHITE, Colours::BLACK);
    let mut w = fresh_writer(colour);
    w.write_byte(0x01);
    assert_eq!(w.read_cell(BUFFER_HEIGHT - 1, 0).ascii_char, 0x01);
}

#[test]
fn wrap_after_full_line() {
    let colour = Colour::new(Colours::WHITE, Colours::BLACK);
    let mut w = fresh_writer(colour);
    for _ in 0..BUFFER_WIDTH {
        w.write_byte(b'a');
    }
    assert_eq!(w.column(), BUFFER_WIDTH);
    w.write_byte(b'b');
    // The overflowing byte lands at column 0 of the last row; the full
    // line of 'a's moved up one row, so the first 'a' is gone from its
    // original place.
    assert_eq!(w.column(), 1);
    assert_eq!(w.read_cell(BUFFER_HEIGHT - 1, 0).ascii_char, b'b');
    for col in 0..BUFFER_WIDTH {
        assert_eq!(w.read_cell(BUFFER_HEIGHT - 2, col).ascii_char, b'a');
    }
}

#[test]
fn newline_resets_column() {
    let colour = Colour::new(Colours::WHITE, Colours::BLACK);
    let mut w = fresh_writer(colour);
    w.write_string("abc");
    assert_eq!(w.column(), 3);
    w.write_byte(b'\n');
    assert_eq!(w.column(), 0);
    for _ in 0..BUFFER_WIDTH {
        w.write_byte(b'x');
    }
    assert_eq!(w.column(), BUFFER_WIDTH);
    w.write_byte(b'\n');
    assert_eq!(w.column(), 0);
}

#[test]
fn many_newlines_blank_grid() {
    let colour = Colour::new(Colours::GREEN, Colours::BLACK);
    let mut w = fresh_writer(colour);
    w.write_string("some text that should vanish");
    for _ in 0..BUFFER_HEIGHT {
        w.write_byte(b'\n');
    }
    assert_eq!(w.column(), 0);
    for row in 0..BUFFER_HEIGHT {
        for col in 0..BUFFER_WIDTH {
            let cell = w.read_cell(row, col);
            assert_eq!(cell.ascii_char, b' ');
            assert_eq!(cell.colour, colour);
        }
    }
}

#[test]
fn colour_stamps_at_write_time() {
    let first = Colour::new(Colours::RED, Colours::BLACK);
    let second = Colour::new(Colours::BLUE, Colours::WHITE);
    let mut w = fresh_writer(first);
    w.write_byte(b'a');
    w.set_colour(second);
    w.write_byte(b'b');
    let before = w.read_cell(BUFFER_HEIGHT - 1, 0);
    let after = w.read_cell(BUFFER_HEIGHT - 1, 1);
    assert_eq!(before.ascii_char, b'a');
    assert_eq!(before.colour, first);
    assert_eq!(after.ascii_char, b'b');
    assert_eq!(after.colour, second);
}

#[test]
fn clear_row_blanks_one_row() {
    let colour = Colour::new(Colours::WHITE, Colours::BLACK);
    let mut w = fresh_writer(colour);
    for _ in 0..BUFFER_WIDTH {
        w.write_byte(b'z');
    }
    w.write_byte(b'q');
    // Row 23 holds the 'z' line now; clearing it blanks it and leaves the
    // 'q' on the last row alone.
    w.clear_row(BUFFER_HEIGHT - 2);
    for col in 0..BUFFER_WIDTH {
        assert_eq!(w.read_cell(BUFFER_HEIGHT - 2, col).ascii_char, b' ');
    }
    assert_eq!(w.read_cell(BUFFER_HEIGHT - 1, 0).ascii_char, b'q');
    assert_eq!(w.column(), 1);
}

#[test]
fn new_line_scrolls_rows_up() {
    let colour = Colour::new(Colours::WHITE, Colours::BLACK);
    let mut w = fresh_writer(colour);
    w.write_string("first\n");
    w.write_string("second");
    assert_eq!(w.read_cell(BUFFER_HEIGHT - 2, 0).ascii_char, b'f');
    assert_eq!(w.read_cell(BUFFER_HEIGHT - 1, 0).ascii_char, b's');
    w.new_line();
    assert_eq!(w.column(), 0);
    assert_eq!(w.read_cell(BUFFER_HEIGHT - 3, 0).ascii_char, b'f');
    assert_eq!(w.read_cell(BUFFER_HEIGHT - 2, 0).ascii_char, b's');
    for col in 0..BUFFER_WIDTH {
        assert_eq!(w.read_cell(BUFFER_HEIGHT - 1, col).ascii_char, b' ');
    }
}

#[test]
fn surface_cell_round_trip() {
    let colour = Colour::new(Colours::PINK, Colours::BLACK);
    let mut s = Surface::new(blank(colour));
    let stamped = ScreenChar { ascii_char: b'x', colour };
    s.write_cell(3, 7, stamped);
    let back = s.read_cell(3, 7);
    assert_eq!(back, stamped);
    assert_eq!(s.read_cell(3, 6), blank(colour));
}

#[test]
fn println_print_one() {
    let colour = Colour::new(Colours::WHITE, Colours::BLACK);
    let mut w = fresh_writer(colour);
    _print(&mut w, &format!("{}\n", "test_println_simple output"));
    assert_eq!(w.column(), 0);
}

#[test]
fn println_print_many() {
    let colour = Colour::new(Colours::WHITE, Colours::BLACK);
    let mut w = fresh_writer(colour);
    for _ in 0..200 {
        _print(&mut w, &format!("{}\n", "test_println_many output"));
    }
    assert_eq!(w.column(), 0);
}

#[test]
fn test_println_output() {
    let colour = Colour::new(Colours::WHITE, Colours::BLACK);
    let mut w = fresh_writer(colour);
    let s = "Some test string that fits on a single line";
    _print(&mut w, &format!("{}\n", s));
    for (i, c) in s.chars().enumerate() {
        let screen_char = w.read_cell(BUFFER_HEIGHT - 2, i);
        assert_eq!(char::from(screen_char.ascii_char), c);
    }
}
