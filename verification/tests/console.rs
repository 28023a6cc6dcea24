//! The text console model: colors pack as the hardware expects, printable
//! bytes land on the bottom row in writing order, everything else renders
//! as the fallback glyph, and newlines scroll.

use cometos::graphics;
use cometos::io::vga_buffer::color::{Color, ColorCode};
use cometos::io::vga_buffer::writer::{Writer, BUFFER_HEIGHT, BUFFER_WIDTH};
use cometos::{host_exit_status, QemuExitCode};

fn yellow_on_black() -> ColorCode {
    ColorCode::new(Color::Yellow, Color::Black)
}

#[test]
fn color_codes_pack_nibbles() {
    assert_eq!(yellow_on_black().code, 14);
    assert_eq!(ColorCode::new(Color::White, Color::Blue).code, (1 << 4) | 15);
    assert_eq!(Color::White.as_u8(), 15);
    assert_eq!(Color::Black.as_u8(), 0);
}

#[test]
fn fresh_screen_is_blank() {
    let w = Writer::new(yellow_on_black());
    assert_eq!(w.column_position, 0);
    for row in &w.buffer {
        assert_eq!(row.len(), BUFFER_WIDTH);
        for cell in row {
            assert_eq!(cell.ascii_character, b' ');
        }
    }
    assert_eq!(w.buffer.len(), BUFFER_HEIGHT);
}

#[test]
fn printable_bytes_land_in_order_on_bottom_row() {
    let mut w = Writer::new(yellow_on_black());
    let s = "Some test string that fits in 1 line";
    w.write_string(s);
    let bottom = &w.buffer[BUFFER_HEIGHT - 1];
    for (i, b) in s.bytes().enumerate() {
        assert_eq!(bottom[i].ascii_character, b, "byte {} out of order", i);
    }
    assert_eq!(w.column_position, s.len());
}

#[test]
fn last_written_byte_sits_on_bottom_row() {
    let mut w = Writer::new(yellow_on_black());
    w.write_string("hello\nworld");
    let bottom = &w.buffer[BUFFER_HEIGHT - 1];
    assert_eq!(bottom[4].ascii_character, b'd');
    // the line before the newline scrolled one row up
    let above = &w.buffer[BUFFER_HEIGHT - 2];
    assert_eq!(above[0].ascii_character, b'h');
    assert_eq!(above[4].ascii_character, b'o');
}

#[test]
fn unprintable_bytes_render_fallback_glyph() {
    let mut w = Writer::new(yellow_on_black());
    w.write_string("\u{7}");
    assert_eq!(w.buffer[BUFFER_HEIGHT - 1][0].ascii_character, 0xfe);
}

#[test]
fn newline_scrolls_and_resets_cursor() {
    let mut w = Writer::new(yellow_on_black());
    w.write_string("ab");
    w.write_byte(b'\n');
    assert_eq!(w.column_position, 0);
    assert_eq!(w.buffer[BUFFER_HEIGHT - 2][0].ascii_character, b'a');
    assert_eq!(w.buffer[BUFFER_HEIGHT - 2][1].ascii_character, b'b');
    assert_eq!(w.buffer[BUFFER_HEIGHT - 1][0].ascii_character, b' ');
}

#[test]
fn full_row_wraps_to_a_fresh_line() {
    let mut w = Writer::new(yellow_on_black());
    for _ in 0..BUFFER_WIDTH {
        w.write_byte(b'x');
    }
    assert_eq!(w.column_position, BUFFER_WIDTH);
    w.write_byte(b'y');
    assert_eq!(w.column_position, 1);
    assert_eq!(w.buffer[BUFFER_HEIGHT - 1][0].ascii_character, b'y');
    assert_eq!(w.buffer[BUFFER_HEIGHT - 2][0].ascii_character, b'x');
}

#[test]
fn clear_row_blanks_exactly_one_row() {
    let mut w = Writer::new(yellow_on_black());
    w.write_string("keep\nwipe");
    w.clear_row(BUFFER_HEIGHT - 1);
    assert_eq!(w.buffer[BUFFER_HEIGHT - 1][0].ascii_character, b' ');
    assert_eq!(w.buffer[BUFFER_HEIGHT - 2][0].ascii_character, b'k');
}

#[test]
fn splash_paints_the_corner() {
    let fb = graphics::init();
    for y in 0..2 {
        for x in 0..2 {
            let p = fb.buffer[y][x];
            assert_eq!((p.r, p.g, p.b, p.alpha), (255, 255, 0, 200));
        }
    }
    assert_eq!(fb.buffer[2][2].alpha, 0, "only the corner was painted");
}

#[test]
fn exit_codes_reach_the_host_shifted() {
    assert_eq!(QemuExitCode::Success.code(), 0x10);
    assert_eq!(QemuExitCode::Failed.code(), 0x11);
    assert_eq!(host_exit_status(QemuExitCode::Success), 0x21);
    assert_eq!(host_exit_status(QemuExitCode::Failed), 0x23);
}
