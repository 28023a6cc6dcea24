//! The console writer: an 80 x 25 grid of characters, written at the
//! bottom row and scrolled up a line at a time.  Printable bytes and the
//! newline render as themselves, anything else as a fallback glyph, and
//! the bytes of a line land on the bottom row in the order they were
//! written.

use vstd::prelude::*;
use vstd::string::StringSliceAdditionalSpecFns;
use crate::io::vga_buffer::color::ColorCode;

verus! {

pub const BUFFER_HEIGHT: usize = 25;

pub const BUFFER_WIDTH: usize = 80;

/// One cell of the text buffer: a code-page byte and its colors.
#[derive(Debug, Clone, Copy, PartialEq, Eq, Structural)]
pub struct ScreenChar {
    pub ascii_character: u8,
    pub color_code: ColorCode,
}

/// An empty cell.
pub open spec fn blank_char(color: ColorCode) -> ScreenChar {
    ScreenChar { ascii_character: 0x20, color_code: color }
}

/// A freshly cleared row.
pub open spec fn blank_row(color: ColorCode) -> Seq<ScreenChar> {
    Seq::new(BUFFER_WIDTH as nat, |c: int| blank_char(color))
}

/// Scrolling: every row moves up one line and the bottom row clears.
pub open spec fn spec_new_line(rows: Seq<Seq<ScreenChar>>, color: ColorCode) -> Seq<
    Seq<ScreenChar>,
> {
    Seq::new(
        BUFFER_HEIGHT as nat,
        |r: int|
            if r < BUFFER_HEIGHT - 1 {
                rows[r + 1]
            } else {
                blank_row(color)
            },
    )
}

/// How a byte renders: printable bytes and the newline as themselves,
/// everything else as the fallback glyph 0xfe.
pub open spec fn spec_glyph(byte: u8) -> u8 {
    if (0x20 <= byte && byte <= 0x7e) || byte == 0x0a {
        byte
    } else {
        0xfe
    }
}

/// The effect of writing one raw byte: a newline scrolls; any other byte
/// lands on the bottom row at the cursor — after a scroll if the row is
/// full — and the cursor advances.
pub open spec fn spec_write_byte(
    rows: Seq<Seq<ScreenChar>>,
    col: int,
    color: ColorCode,
    byte: u8,
) -> (Seq<Seq<ScreenChar>>, int) {
    if byte == 0x0a {
        (spec_new_line(rows, color), 0)
    } else {
        let rows1 = if col >= BUFFER_WIDTH {
            spec_new_line(rows, color)
        } else {
            rows
        };
        let col1 = if col >= BUFFER_WIDTH {
            0int
        } else {
            col
        };
        (
            rows1.update(
                BUFFER_HEIGHT - 1,
                rows1[BUFFER_HEIGHT - 1].update(
                    col1,
                    ScreenChar { ascii_character: byte, color_code: color },
                ),
            ),
            col1 + 1,
        )
    }
}

/// The effect of writing a whole string, each byte first put through the
/// glyph filter.
pub open spec fn spec_write_bytes(
    rows: Seq<Seq<ScreenChar>>,
    col: int,
    color: ColorCode,
    bytes: Seq<u8>,
) -> (Seq<Seq<ScreenChar>>, int)
    decreases bytes.len(),
{
    if bytes.len() == 0 {
        (rows, col)
    } else {
        let step = spec_write_byte(rows, col, color, spec_glyph(bytes[0]));
        spec_write_bytes(step.0, step.1, color, bytes.drop_first())
    }
}

/// The console writer: the cursor column on the bottom row, the colors it
/// writes with, and the character grid.
pub struct Writer {
    pub column_position: usize,
    pub color_code: ColorCode,
    pub buffer: Vec<Vec<ScreenChar>>,
}

impl Writer {
    /// The grid as plain rows of cells.
    pub open spec fn rows(self) -> Seq<Seq<ScreenChar>> {
        self.buffer@.map_values(|r: Vec<ScreenChar>| r@)
    }

    pub open spec fn wf(self) -> bool {
        &&& self.buffer@.len() == BUFFER_HEIGHT
        &&& forall|r: int|
            0 <= r < BUFFER_HEIGHT ==> (#[trigger] self.buffer@[r])@.len() == BUFFER_WIDTH
        &&& self.column_position <= BUFFER_WIDTH
    }

    /// A writer over a blank screen.
    pub fn new(color_code: ColorCode) -> (r: Writer)
        ensures
            r.wf(),
            r.column_position == 0,
            r.color_code == color_code,
            forall|y: int, x: int|
                0 <= y < BUFFER_HEIGHT && 0 <= x < BUFFER_WIDTH ==> #[trigger] r.rows()[y][x]
                    == blank_char(color_code),
    {
        let mut buffer: Vec<Vec<ScreenChar>> = Vec::new();
        let mut y: usize = 0;
        while y < BUFFER_HEIGHT
            invariant
                y <= BUFFER_HEIGHT,
                buffer@.len() == y,
                forall|r: int| 0 <= r < y ==> (#[trigger] buffer@[r])@ =~= blank_row(color_code),
            decreases BUFFER_HEIGHT - y,
        {
            buffer.push(Self::fresh_row(color_code));
            y = y + 1;
        }
        Writer { column_position: 0, color_code, buffer }
    }

    fn fresh_row(color: ColorCode) -> (r: Vec<ScreenChar>)
        ensures
            r@ =~= blank_row(color),
    {
        let mut row: Vec<ScreenChar> = Vec::new();
        let mut x: usize = 0;
        while x < BUFFER_WIDTH
            invariant
                x <= BUFFER_WIDTH,
                row@.len() == x,
                forall|c: int| 0 <= c < x ==> #[trigger] row@[c] == blank_char(color),
            decreases BUFFER_WIDTH - x,
        {
            row.push(ScreenChar { ascii_character: 0x20, color_code: color });
            x = x + 1;
        }
        row
    }

    /// Blank out one row in place.
    pub fn clear_row(&mut self, row: usize)
        requires
            old(self).wf(),
            row < BUFFER_HEIGHT,
        ensures
            final(self).wf(),
            final(self).column_position == old(self).column_position,
            final(self).color_code == old(self).color_code,
            final(self).rows() =~= old(self).rows().update(
                row as int,
                blank_row(old(self).color_code),
            ),
    {
        let blank = Self::fresh_row(self.color_code);
        self.buffer.remove(row);
        self.buffer.insert(row, blank);
        proof {
            assert(self.rows() =~= old(self).rows().update(
                row as int,
                blank_row(old(self).color_code),
            ));
        }
    }

    /// Scroll the screen one line up and return the cursor to the left.
    fn new_line(&mut self)
        requires
            old(self).wf(),
        ensures
            final(self).wf(),
            final(self).color_code == old(self).color_code,
            final(self).column_position == 0,
            final(self).rows() =~= spec_new_line(old(self).rows(), old(self).color_code),
    {
        let mut y: usize = 1;
        while y < BUFFER_HEIGHT
            invariant
                old(self).wf(),
                self.wf(),
                1 <= y <= BUFFER_HEIGHT,
                self.color_code == old(self).color_code,
                self.column_position == old(self).column_position,
                forall|r: int|
                    0 <= r < y - 1 ==> #[trigger] self.rows()[r] == old(self).rows()[r + 1],
                forall|r: int|
                    y - 1 <= r < BUFFER_HEIGHT ==> #[trigger] self.rows()[r] == old(self).rows()[
                        r
                    ],
            decreases BUFFER_HEIGHT - y,
        {
            let ghost pre = *self;
            let moved = self.buffer[y].clone();
            proof {
                assert(moved@ =~= pre.rows()[y as int]);
            }
            self.buffer.remove(y - 1);
            self.buffer.insert(y - 1, moved);
            proof {
                assert forall|r: int| 0 <= r < BUFFER_HEIGHT implies #[trigger] self.rows()[r] == (
                if r == y - 1 {
                    pre.rows()[y as int]
                } else {
                    pre.rows()[r]
                }) by {}
            }
            y = y + 1;
        }
        self.clear_row(BUFFER_HEIGHT - 1);
        self.column_position = 0;
        proof {
            assert(self.rows() =~= spec_new_line(old(self).rows(), old(self).color_code));
        }
    }

    /// Write one raw byte: a newline scrolls, anything else lands at the
    /// cursor on the bottom row, scrolling first if the row is full.
    pub fn write_byte(&mut self, byte: u8)
        requires
            old(self).wf(),
        ensures
            final(self).wf(),
            final(self).color_code == old(self).color_code,
            final(self).rows() =~= spec_write_byte(
                old(self).rows(),
                old(self).column_position as int,
                old(self).color_code,
                byte,
            ).0,
            final(self).column_position as int == spec_write_byte(
                old(self).rows(),
                old(self).column_position as int,
                old(self).color_code,
                byte,
            ).1,
    {
        match byte {
            0x0a => self.new_line(),
            byte => {
                if self.column_position >= BUFFER_WIDTH {
                    self.new_line();
                }
                let ghost pre = *self;
                let row = BUFFER_HEIGHT - 1;
                let col = self.column_position;

                let color_code = self.color_code;
                let mut line = self.buffer.remove(row);
                line.remove(col);
                line.insert(col, ScreenChar { ascii_character: byte, color_code });
                self.buffer.insert(row, line);
                self.column_position = self.column_position + 1;
                proof {
                    assert(self.rows()[row as int] =~= pre.rows()[row as int].update(
                        col as int,
                        ScreenChar { ascii_character: byte, color_code },
                    ));
                    assert(self.rows() =~= pre.rows().update(
                        row as int,
                        pre.rows()[row as int].update(
                            col as int,
                            ScreenChar { ascii_character: byte, color_code },
                        ),
                    ));
                }
            },
        }
    }

    /// Write a string: printable bytes and newlines render as themselves,
    /// anything else as the fallback glyph.
    pub fn write_string(&mut self, string: &str)
        requires
            old(self).wf(),
        ensures
            final(self).wf(),
            final(self).color_code == old(self).color_code,
            final(self).rows() =~= spec_write_bytes(
                old(self).rows(),
                old(self).column_position as int,
                old(self).color_code,
                string.spec_bytes(),
            ).0,
            final(self).column_position as int == spec_write_bytes(
                old(self).rows(),
                old(self).column_position as int,
                old(self).color_code,
                string.spec_bytes(),
            ).1,
    {
        let bytes = string.as_bytes();
        let ghost all = string.spec_bytes();
        let mut i: usize = 0;
        while i < bytes.len()
            invariant
                self.wf(),
                old(self).wf(),
                i <= bytes.len(),
                bytes@ == all,
                self.color_code == old(self).color_code,
                self.rows() =~= spec_write_bytes(
                    old(self).rows(),
                    old(self).column_position as int,
                    old(self).color_code,
                    all.take(i as int),
                ).0,
                self.column_position as int == spec_write_bytes(
                    old(self).rows(),
                    old(self).column_position as int,
                    old(self).color_code,
                    all.take(i as int),
                ).1,
            decreases bytes.len() - i,
        {
            let byte = bytes[i];
            let rendered = if (0x20 <= byte && byte <= 0x7e) || byte == 0x0a {
                byte
            } else {
                0xfe
            };
            self.write_byte(rendered);
            proof {
                assert(all.take(i + 1) =~= all.take(i as int).push(byte));
                lemma_write_bytes_snoc(
                    old(self).rows(),
                    old(self).column_position as int,
                    old(self).color_code,
                    all.take(i as int),
                    byte,
                );
            }
            i = i + 1;
        }
        proof {
            assert(all.take(bytes@.len() as int) =~= all);
        }
    }
}

/// Writing one more byte after a batch is one more step of the batch.
proof fn lemma_write_bytes_snoc(
    rows: Seq<Seq<ScreenChar>>,
    col: int,
    color: ColorCode,
    bytes: Seq<u8>,
    byte: u8,
)
    ensures
        spec_write_bytes(rows, col, color, bytes.push(byte)).0 =~= spec_write_byte(
            spec_write_bytes(rows, col, color, bytes).0,
            spec_write_bytes(rows, col, color, bytes).1,
            color,
            spec_glyph(byte),
        ).0,
        spec_write_bytes(rows, col, color, bytes.push(byte)).1 == spec_write_byte(
            spec_write_bytes(rows, col, color, bytes).0,
            spec_write_bytes(rows, col, color, bytes).1,
            color,
            spec_glyph(byte),
        ).1,
    decreases bytes.len(),
{
    if bytes.len() == 0 {
        assert(bytes.push(byte)[0] == byte);
        assert(bytes.push(byte).drop_first() =~= Seq::<u8>::empty());
        let whole = spec_write_bytes(rows, col, color, bytes.push(byte));
        let step2 = spec_write_byte(rows, col, color, spec_glyph(byte));
        assert(whole == spec_write_bytes(step2.0, step2.1, color, bytes.push(byte).drop_first()));
        assert(spec_write_bytes(step2.0, step2.1, color, Seq::<u8>::empty()) == (step2.0, step2.1));
        assert(spec_write_bytes(rows, col, color, bytes) == (rows, col));
    } else {
        assert(bytes.push(byte)[0] == bytes[0]);
        assert(bytes.push(byte).drop_first() =~= bytes.drop_first().push(byte));
        let step = spec_write_byte(rows, col, color, spec_glyph(bytes[0]));
        let whole = spec_write_bytes(rows, col, color, bytes.push(byte));
        assert(whole == spec_write_bytes(step.0, step.1, color, bytes.push(byte).drop_first()));
        assert(whole == spec_write_bytes(step.0, step.1, color, bytes.drop_first().push(byte)));
        lemma_write_bytes_snoc(step.0, step.1, color, bytes.drop_first(), byte);
        assert(spec_write_bytes(rows, col, color, bytes) == spec_write_bytes(
            step.0,
            step.1,
            color,
            bytes.drop_first(),
        ));
    }
}

/// A line of printable bytes that fits the remaining row lands on the
/// bottom row, in order, right where the cursor stood — and nothing else
/// on the screen moves.  In particular the byte written last sits on the
/// bottom row.
pub proof fn lemma_line_written_in_order(
    rows: Seq<Seq<ScreenChar>>,
    col: int,
    color: ColorCode,
    bytes: Seq<u8>,
)
    requires
        rows.len() == BUFFER_HEIGHT,
        forall|r: int| 0 <= r < BUFFER_HEIGHT ==> (#[trigger] rows[r]).len() == BUFFER_WIDTH,
        0 <= col,
        col + bytes.len() <= BUFFER_WIDTH,
        forall|i: int| 0 <= i < bytes.len() ==> 0x20 <= #[trigger] bytes[i] <= 0x7e,
    ensures
        spec_write_bytes(rows, col, color, bytes).1 == col + bytes.len(),
        spec_write_bytes(rows, col, color, bytes).0.len() == BUFFER_HEIGHT,
        forall|r: int|
            0 <= r < BUFFER_HEIGHT - 1 ==> #[trigger] spec_write_bytes(rows, col, color, bytes).0[r]
                == rows[r],
        spec_write_bytes(rows, col, color, bytes).0[BUFFER_HEIGHT - 1].len() == BUFFER_WIDTH,
        forall|i: int|
            0 <= i < bytes.len() ==> #[trigger] spec_write_bytes(rows, col, color, bytes).0[
                BUFFER_HEIGHT - 1
            ][col + i] == (ScreenChar { ascii_character: bytes[i], color_code: color }),
        forall|c: int|
            0 <= c < BUFFER_WIDTH && !(col <= c < col + bytes.len())
                ==> #[trigger] spec_write_bytes(rows, col, color, bytes).0[BUFFER_HEIGHT - 1][c]
                == rows[BUFFER_HEIGHT - 1][c],
    decreases bytes.len(),
{
    if bytes.len() > 0 {
        let b = bytes[0];
        assert(spec_glyph(b) == b);
        assert(col < BUFFER_WIDTH);
        let step = spec_write_byte(rows, col, color, b);
        let rows1 = step.0;
        assert(rows1 == rows.update(
            BUFFER_HEIGHT - 1,
            rows[BUFFER_HEIGHT - 1].update(
                col,
                ScreenChar { ascii_character: b, color_code: color },
            ),
        ));
        assert(step.1 == col + 1);
        lemma_line_written_in_order(rows1, col + 1, color, bytes.drop_first());
        let whole = spec_write_bytes(rows, col, color, bytes);
        let rec = spec_write_bytes(rows1, col + 1, color, bytes.drop_first());
        assert(whole == rec);
        assert(bytes.drop_first().len() == bytes.len() - 1);
        assert forall|r: int| 0 <= r < BUFFER_HEIGHT - 1 implies #[trigger] whole.0[r] == rows[
            r
        ] by {
            assert(rec.0[r] == rows1[r]);
            assert(rows1[r] == rows[r]);
        }
        assert forall|i: int| 0 <= i < bytes.len() implies #[trigger] whole.0[BUFFER_HEIGHT - 1][
            col + i
        ] == (ScreenChar { ascii_character: bytes[i], color_code: color }) by {
            if i == 0 {
                assert(!(col + 1 <= col < col + 1 + bytes.drop_first().len()));
                assert(rec.0[BUFFER_HEIGHT - 1][col] == rows1[BUFFER_HEIGHT - 1][col]);
                assert(rows1[BUFFER_HEIGHT - 1][col] == (ScreenChar {
                    ascii_character: b,
                    color_code: color,
                }));
            } else {
                let j = i - 1;
                assert(bytes.drop_first()[j] == bytes[i]);
                assert(rec.0[BUFFER_HEIGHT - 1][(col + 1) + j] == (ScreenChar {
                    ascii_character: bytes.drop_first()[j],
                    color_code: color,
                }));
                assert((col + 1) + j == col + i);
            }
        }
        assert forall|c: int|
            0 <= c < BUFFER_WIDTH && !(col <= c < col + bytes.len()) implies #[trigger] whole.0[
            BUFFER_HEIGHT - 1
        ][c] == rows[BUFFER_HEIGHT - 1][c] by {
            assert(!(col + 1 <= c < col + 1 + bytes.drop_first().len()));
            assert(rec.0[BUFFER_HEIGHT - 1][c] == rows1[BUFFER_HEIGHT - 1][c]);
            assert(rows1[BUFFER_HEIGHT - 1][c] == rows[BUFFER_HEIGHT - 1][c]);
        }
    }
}

} // verus!
