//! The text console.
//!
//! The running kernel prints by writing character cells into the video
//! text buffer, a fixed 25-by-80 grid of volatile memory-mapped cells.
//! Here the grid is an owned model, so that what printing does to the
//! screen — filling the bottom row left to right, wrapping long lines,
//! scrolling everything up by one row on a line break — is stated and
//! proved exactly.  Moving the cells to the real video memory is left to
//! the unverified driver code.

use vstd::prelude::*;

verus! {

/// How many rows the text buffer has.
pub const BUFFER_HEIGHT: usize = 25;

/// How many columns the text buffer has.
pub const BUFFER_WIDTH: usize = 80;

/// The sixteen colors of the text mode palette, in numeric order starting
/// at zero.
#[derive(Debug, Clone, Copy, PartialEq, Eq, Structural)]
pub enum Color {
    Black,
    Blue,
    Green,
    Cyan,
    Red,
    Magenta,
    Brown,
    LightGray,
    DarkGray,
    LightBlue,
    LightGreen,
    LightCyan,
    LightRed,
    Pink,
    Yellow,
    White,
}

impl Color {
    /// The palette number of this color.
    pub open spec fn spec_u8(self) -> u8 {
        match self {
            Color::Black => 0,
            Color::Blue => 1,
            Color::Green => 2,
            Color::Cyan => 3,
            Color::Red => 4,
            Color::Magenta => 5,
            Color::Brown => 6,
            Color::LightGray => 7,
            Color::DarkGray => 8,
            Color::LightBlue => 9,
            Color::LightGreen => 10,
            Color::LightCyan => 11,
            Color::LightRed => 12,
            Color::Pink => 13,
            Color::Yellow => 14,
            Color::White => 15,
        }
    }

    /// The palette number of this color.
    pub fn as_u8(self) -> (r: u8)
        ensures
            r == self.spec_u8(),
    {
        match self {
            Color::Black => 0,
            Color::Blue => 1,
            Color::Green => 2,
            Color::Cyan => 3,
            Color::Red => 4,
            Color::Magenta => 5,
            Color::Brown => 6,
            Color::LightGray => 7,
            Color::DarkGray => 8,
            Color::LightBlue => 9,
            Color::LightGreen => 10,
            Color::LightCyan => 11,
            Color::LightRed => 12,
            Color::Pink => 13,
            Color::Yellow => 14,
            Color::White => 15,
        }
    }
}

/// A foreground and a background color packed into one attribute byte:
/// background in the high four bits, foreground in the low four.
#[derive(Debug, Clone, Copy, PartialEq, Eq, Structural)]
pub struct ColorCode(u8);

impl ColorCode {
    /// The packed attribute byte.
    pub closed spec fn spec_code(self) -> u8 {
        self.0
    }

    /// Packs a foreground and a background color.
    pub fn new(foreground: Color, background: Color) -> (r: ColorCode)
        ensures
            r.spec_code() == background.spec_u8() * 16 + foreground.spec_u8(),
    {
        let fg = foreground.as_u8();
        let bg = background.as_u8();
        proof {
            assert((bg << 4u8) | fg == bg * 16 + fg) by (bit_vector)
                requires
                    bg < 16 && fg < 16,
            ;
        }
        ColorCode((bg << 4) | fg)
    }
}

/// One character cell: an extended-set character byte and its colors.
#[derive(Debug, Clone, Copy, PartialEq, Eq, Structural)]
pub struct ScreenChar {
    pub ascii_character: u8,
    pub color_code: ColorCode,
}

/// The cell a cleared position shows: a space in the given colors.
pub open spec fn blank_char(color: ColorCode) -> ScreenChar {
    ScreenChar { ascii_character: 0x20, color_code: color }
}

/// A cleared row.
pub open spec fn blank_row(color: ColorCode) -> Seq<ScreenChar> {
    Seq::new(BUFFER_WIDTH as nat, |c: int| blank_char(color))
}

/// The byte a character actually prints as: printable characters and the
/// line break go through, everything else shows the replacement character.
pub open spec fn printable(b: u8) -> u8 {
    if (0x20 <= b && b <= 0x7e) || b == 0x0a {
        b
    } else {
        0xfe
    }
}

/// The mathematical state of the console: the grid of cells, the column the
/// next character goes to, and the colors it is written in.
pub ghost struct WriterModel {
    pub rows: Seq<Seq<ScreenChar>>,
    pub column: nat,
    pub color: ColorCode,
}

impl WriterModel {
    /// The grid has its fixed dimensions and the column is at most one past
    /// the last position.
    pub open spec fn wf(self) -> bool {
        &&& self.rows.len() == BUFFER_HEIGHT
        &&& forall|r: int| 0 <= r < BUFFER_HEIGHT ==> (#[trigger] self.rows[r]).len() == BUFFER_WIDTH
        &&& self.column <= BUFFER_WIDTH
    }

    /// The console after a line break: every row moves up by one, the
    /// bottom row is cleared, and writing restarts at the left edge.
    pub open spec fn scrolled(self) -> WriterModel {
        WriterModel {
            rows: Seq::new(
                BUFFER_HEIGHT as nat,
                |r: int|
                    if r < BUFFER_HEIGHT - 1 {
                        self.rows[r + 1]
                    } else {
                        blank_row(self.color)
                    },
            ),
            column: 0,
            color: self.color,
        }
    }

    /// The console after one byte is written: a line break scrolls; any
    /// other byte lands in the bottom row at the current column (scrolling
    /// first when the row is full) and advances the column.
    pub open spec fn with_byte(self, byte: u8) -> WriterModel {
        if byte == 0x0a {
            self.scrolled()
        } else {
            let m = if self.column >= BUFFER_WIDTH {
                self.scrolled()
            } else {
                self
            };
            WriterModel {
                rows: m.rows.update(
                    BUFFER_HEIGHT - 1,
                    m.rows[BUFFER_HEIGHT - 1].update(
                        m.column as int,
                        ScreenChar { ascii_character: byte, color_code: self.color },
                    ),
                ),
                column: m.column + 1,
                color: self.color,
            }
        }
    }

    /// The console after a whole string of bytes is written, each one
    /// filtered down to what it prints as.
    pub open spec fn with_string(self, s: Seq<u8>) -> WriterModel
        decreases s.len(),
    {
        if s.len() == 0 {
            self
        } else {
            self.with_byte(printable(s[0])).with_string(s.drop_first())
        }
    }
}

/// Writing a string one byte at a time agrees with writing it at once.
pub proof fn lemma_with_string_snoc(m: WriterModel, s: Seq<u8>, b: u8)
    ensures
        m.with_string(s.push(b)) == m.with_string(s).with_byte(printable(b)),
    decreases s.len(),
{
    if s.len() == 0 {
        let e = s.push(b).drop_first();
        assert(e =~= Seq::<u8>::empty());
        assert(s.push(b)[0] == b);
        assert(m.with_byte(printable(b)).with_string(e) == m.with_byte(printable(b)));
        assert(m.with_string(s) == m);
    } else {
        assert(s.push(b)[0] == s[0]);
        assert(s.push(b).drop_first() =~= s.drop_first().push(b));
        lemma_with_string_snoc(m.with_byte(printable(s[0])), s.drop_first(), b);
    }
}

/// The console writer.
pub struct Writer {
    column_position: usize,
    color_code: ColorCode,
    buffer: Vec<Vec<ScreenChar>>,
}

impl View for Writer {
    type V = WriterModel;

    closed spec fn view(&self) -> WriterModel {
        WriterModel {
            rows: self.buffer@.map_values(|r: Vec<ScreenChar>| r@),
            column: self.column_position as nat,
            color: self.color_code,
        }
    }
}

/// A freshly cleared row in the given colors.
#[verifier::loop_isolation(false)]
fn blank_row_vec(color: ColorCode) -> (r: Vec<ScreenChar>)
    ensures
        r@ == blank_row(color),
{
    let mut r: Vec<ScreenChar> = Vec::new();
    while r.len() < BUFFER_WIDTH
        invariant
            r@.len() <= BUFFER_WIDTH,
            forall|c: int| 0 <= c < r@.len() ==> #[trigger] r@[c] == blank_char(color),
        decreases BUFFER_WIDTH - r@.len(),
    {
        r.push(ScreenChar { ascii_character: 0x20, color_code: color });
    }
    proof {
        assert(r@ =~= blank_row(color));
    }
    r
}

impl Writer {
    /// A writer over a cleared screen, printing in the given colors.
    #[verifier::loop_isolation(false)]
    pub fn new(foreground: Color, background: Color) -> (r: Writer)
        ensures
            r@.wf(),
            r@.column == 0,
            r@.color.spec_code() == background.spec_u8() * 16 + foreground.spec_u8(),
            forall|i: int| 0 <= i < BUFFER_HEIGHT ==> #[trigger] r@.rows[i] == blank_row(r@.color),
    {
        let color_code = ColorCode::new(foreground, background);
        let mut buffer: Vec<Vec<ScreenChar>> = Vec::new();
        while buffer.len() < BUFFER_HEIGHT
            invariant
                buffer@.len() <= BUFFER_HEIGHT,
            forall|i: int|
                0 <= i < buffer@.len() ==> (#[trigger] buffer@[i])@ == blank_row(color_code),
            decreases BUFFER_HEIGHT - buffer@.len(),
        {
            let row = blank_row_vec(color_code);
            buffer.push(row);
        }
        Writer { column_position: 0, color_code, buffer }
    }

    /// The column the next character goes to.
    pub fn column_position(&self) -> (r: usize)
        ensures
            r == self@.column,
    {
        self.column_position
    }

    /// The character byte shown at the given position.
    pub fn char_at(&self, row: usize, col: usize) -> (r: u8)
        requires
            self@.wf(),
            row < BUFFER_HEIGHT,
            col < BUFFER_WIDTH,
        ensures
            r == self@.rows[row as int][col as int].ascii_character,
    {
        proof {
            assert(self@.rows[row as int] == self.buffer@[row as int]@);
        }
        self.buffer[row][col].ascii_character
    }

    /// Clears the bottom row.
    pub fn clear_row(&mut self)
        requires
            old(self)@.wf(),
        ensures
            final(self)@.wf(),
            final(self)@.rows == old(self)@.rows.update(
                BUFFER_HEIGHT - 1,
                blank_row(old(self)@.color),
            ),
            final(self)@.column == old(self)@.column,
            final(self)@.color == old(self)@.color,
    {
        let row = blank_row_vec(self.color_code);
        self.buffer[BUFFER_HEIGHT - 1] = row;
        proof {
            assert(self@.rows =~~= old(self)@.rows.update(
                BUFFER_HEIGHT - 1,
                blank_row(old(self)@.color),
            ));
        }
    }

    /// Scrolls: moves every row up by one, clears the bottom row, and
    /// restarts at the left edge.
    fn new_line(&mut self)
        requires
            old(self)@.wf(),
        ensures
            final(self)@.wf(),
            final(self)@ == old(self)@.scrolled(),
    {
        let _top = self.buffer.remove(0);
        let blank = blank_row_vec(self.color_code);
        self.buffer.push(blank);
        self.column_position = 0;
        proof {
            assert(self@.rows =~~= old(self)@.scrolled().rows);
        }
    }

    /// Writes one byte: a line break scrolls, anything else lands in the
    /// bottom row at the current column (scrolling first when the row is
    /// full) and advances the column.
    pub fn write_byte(&mut self, byte: u8)
        requires
            old(self)@.wf(),
        ensures
            final(self)@.wf(),
            final(self)@ == old(self)@.with_byte(byte),
    {
        if byte == 0x0a {
            self.new_line();
        } else {
            if self.column_position >= BUFFER_WIDTH {
                self.new_line();
            }
            let ghost m = self@;
            let mut row = self.buffer.remove(BUFFER_HEIGHT - 1);
            proof {
                assert(row@ == m.rows[BUFFER_HEIGHT - 1]);
                assert(row@.len() == BUFFER_WIDTH);
            }
            let cell = ScreenChar { ascii_character: byte, color_code: self.color_code };
            row[self.column_position] = cell;
            self.buffer.insert(BUFFER_HEIGHT - 1, row);
            self.column_position = self.column_position + 1;
            proof {
                assert(self@.rows =~~= m.rows.update(
                    BUFFER_HEIGHT - 1,
                    m.rows[BUFFER_HEIGHT - 1].update(m.column as int, cell),
                ));
            }
        }
    }

    /// Writes a string of bytes, printable characters and line breaks as
    /// themselves and everything else as the replacement character.
    #[verifier::loop_isolation(false)]
    pub fn write_string(&mut self, s: &[u8])
        requires
            old(self)@.wf(),
        ensures
            final(self)@.wf(),
            final(self)@ == old(self)@.with_string(s@),
    {
        let mut i: usize = 0;
        while i < s.len()
            invariant
                i <= s@.len(),
                self@.wf(),
                self@ == old(self)@.with_string(s@.take(i as int)),
            decreases s@.len() - i,
        {
            let b = s[i];
            let printed: u8 = if (0x20 <= b && b <= 0x7e) || b == 0x0a {
                b
            } else {
                0xfe
            };
            proof {
                assert(s@.take(i + 1) =~= s@.take(i as int).push(s@[i as int]));
                lemma_with_string_snoc(old(self)@, s@.take(i as int), s@[i as int]);
            }
            self.write_byte(printed);
            i = i + 1;
        }
        proof {
            assert(s@.take(s@.len() as int) =~= s@);
        }
    }
}

} // verus!
