//! The VGA text screen: its colours, and a writer that fills it line by
//! line and scrolls.

use vstd::prelude::*;
use vstd::string::StringSliceAdditionalSpecFns;

verus! {

/// The sixteen colours of the VGA text mode.
#[derive(Clone, Copy, Debug, PartialEq, Eq, Structural)]
pub enum Color {
    Black,
    Blue,
    Green,
    Cyan,
    Red,
    Magenta,
    Brown,
    LightGray,
    DarkGray,
    LightBlue,
    LightGreen,
    LightCyan,
    LightRed,
    Pink,
    Yellow,
    White,
}

impl Color {
    /// The number of the colour, 0 to 15.
    pub open spec fn code(self) -> u8 {
        match self {
            Color::Black => 0,
            Color::Blue => 1,
            Color::Green => 2,
            Color::Cyan => 3,
            Color::Red => 4,
            Color::Magenta => 5,
            Color::Brown => 6,
            Color::LightGray => 7,
            Color::DarkGray => 8,
            Color::LightBlue => 9,
            Color::LightGreen => 10,
            Color::LightCyan => 11,
            Color::LightRed => 12,
            Color::Pink => 13,
            Color::Yellow => 14,
            Color::White => 15,
        }
    }

    /// The number of the colour, 0 to 15.
    pub fn as_u8(self) -> (r: u8)
        ensures
            r == self.code(),
    {
        match self {
            Color::Black => 0,
            Color::Blue => 1,
            Color::Green => 2,
            Color::Cyan => 3,
            Color::Red => 4,
            Color::Magenta => 5,
            Color::Brown => 6,
            Color::LightGray => 7,
            Color::DarkGray => 8,
            Color::LightBlue => 9,
            Color::LightGreen => 10,
            Color::LightCyan => 11,
            Color::LightRed => 12,
            Color::Pink => 13,
            Color::Yellow => 14,
            Color::White => 15,
        }
    }
}

/// The colours of one character on the screen: the background in the
/// high four bits, the foreground in the low four.
#[derive(Clone, Copy, Debug, PartialEq, Eq, Structural)]
pub struct ColorCode(u8);

impl View for ColorCode {
    type V = u8;

    /// The byte that holds both colours.
    closed spec fn view(&self) -> u8 {
        self.0
    }
}

impl ColorCode {
    /// The colour code of `foreground` on `background`.
    pub fn new(foreground: Color, background: Color) -> (r: ColorCode)
        ensures
            r@ == 16 * background.code() + foreground.code(),
    {
        let high = background.as_u8();
        let low = foreground.as_u8();
        assert(high < 16 && low < 16 ==> (high << 4) | low == 16 * high + low) by (bit_vector);
        ColorCode((high << 4) | low)
    }

    /// The byte that holds both colours.
    pub fn as_u8(self) -> (r: u8)
        ensures
            r == self@,
    {
        self.0
    }
}

/// The number of rows of the screen.
pub const BUFFER_HEIGHT: usize = 25;

/// The number of columns of the screen.
pub const BUFFER_WIDTH: usize = 80;

/// The space, with which the screen is cleared.
pub const SPACE: u8 = 0x20;

/// The line feed.
pub const LINE_FEED: u8 = 0x0a;

/// The `*` that is shown for a byte that cannot be shown.
pub const PLACEHOLDER: u8 = 0x2a;

/// One character on the screen.
#[derive(Clone, Copy, Debug, PartialEq, Eq, Structural)]
pub struct ScreenChar {
    pub ascii_character: u8,
    pub color_code: ColorCode,
}

/// What a writer shows and where it writes next: the rows from the top
/// of the screen down, the column of the next character in the last row,
/// and the colours in which it writes.
pub struct Screen {
    pub column: int,
    pub color: ColorCode,
    pub rows: Seq<Seq<ScreenChar>>,
}

/// A row of spaces in the colours `color`.
pub open spec fn blank_row(color: ColorCode) -> Seq<ScreenChar> {
    Seq::new(80, |column: int| ScreenChar { ascii_character: 0x20, color_code: color })
}

/// The byte that is shown for `byte`: printable ASCII and the line feed
/// are themselves, every other byte is shown as `*`.
pub open spec fn shown_byte(byte: u8) -> u8 {
    if 0x20 <= byte <= 0x7e || byte == 0x0a {
        byte
    } else {
        0x2a
    }
}

impl Screen {
    /// 25 rows of 80 characters.
    pub open spec fn wf(self) -> bool {
        &&& self.rows.len() == 25
        &&& forall|row: int| 0 <= row < 25 ==> (#[trigger] self.rows[row]).len() == 80
    }

    /// The screen after a line feed: every row moves up by one, the top
    /// row is lost, the last row is blank, and writing goes on at its
    /// start.
    pub open spec fn new_line(self) -> Screen {
        Screen { column: 0, rows: self.rows.skip(1).push(blank_row(self.color)), ..self }
    }

    /// The screen after `byte` was written: a line feed starts a new
    /// line; any other byte goes to the last row at the column, after a
    /// line feed where the row is full.
    pub open spec fn write_byte(self, byte: u8) -> Screen {
        if byte == 0x0a {
            self.new_line()
        } else {
            let at = if self.column >= 80 {
                self.new_line()
            } else {
                self
            };
            Screen {
                column: at.column + 1,
                rows: at.rows.update(
                    24,
                    at.rows[24].update(
                        at.column,
                        ScreenChar { ascii_character: byte, color_code: at.color },
                    ),
                ),
                ..at
            }
        }
    }

    /// The screen after the bytes `bytes` were written, first to last,
    /// each as it is shown.
    pub open spec fn write_string(self, bytes: Seq<u8>) -> Screen
        decreases bytes.len(),
    {
        if bytes.len() == 0 {
            self
        } else {
            self.write_string(bytes.drop_last()).write_byte(shown_byte(bytes.last()))
        }
    }
}

/// A writer to the text screen. It writes in the last row and scrolls
/// the screen up by a row at the end of each line.
pub struct Writer {
    column_position: usize,
    color_code: ColorCode,
    chars: [[ScreenChar; BUFFER_WIDTH]; BUFFER_HEIGHT],
}

impl View for Writer {
    type V = Screen;

    /// What the writer shows, and where it writes next.
    closed spec fn view(&self) -> Screen {
        Screen {
            column: self.column_position as int,
            color: self.color_code,
            rows: Seq::new(25, |row: int| self.chars@[row]@),
        }
    }
}

impl Writer {
    /// A writer in the colours `color_code` to a blank screen.
    pub fn new(color_code: ColorCode) -> (r: Writer)
        ensures
            r@ == (Screen {
                column: 0,
                color: color_code,
                rows: Seq::new(25, |row: int| blank_row(color_code)),
            }),
            r@.wf(),
    {
        let blank = ScreenChar { ascii_character: SPACE, color_code };
        let r = Writer {
            column_position: 0,
            color_code,
            chars: [[blank; BUFFER_WIDTH]; BUFFER_HEIGHT],
        };
        assert forall|row: int| 0 <= row < 25 implies #[trigger] r.chars@[row]@ == blank_row(
            color_code,
        ) by {
            assert(r.chars@[row]@ =~= blank_row(color_code));
        }
        assert(r@.rows =~= Seq::new(25, |row: int| blank_row(color_code)));
        r
    }

    /// The character at `row` and `column` of the screen.
    pub fn char_at(&self, row: usize, column: usize) -> (r: ScreenChar)
        requires
            row < 25,
            column < 80,
        ensures
            r == self@.rows[row as int][column as int],
            self@.wf(),
    {
        self.chars[row][column]
    }

    /// The column at which the next character is written.
    pub fn column_position(&self) -> (r: usize)
        ensures
            r == self@.column,
    {
        self.column_position
    }

    /// Fills `row` with spaces.
    fn clear_row(&mut self, row: usize)
        requires
            row < 25,
        ensures
            final(self)@ == (Screen {
                rows: old(self)@.rows.update(row as int, blank_row(old(self)@.color)),
                ..old(self)@
            }),
    {
        let blank = ScreenChar { ascii_character: SPACE, color_code: self.color_code };
        let line = [blank; BUFFER_WIDTH];
        assert(line@ =~= blank_row(self.color_code));
        self.chars[row] = line;
        assert(self@.rows =~= old(self)@.rows.update(row as int, blank_row(old(self)@.color)));
    }

    /// Starts a new line: moves every row up by one and clears the last.
    fn new_line(&mut self)
        ensures
            final(self)@ == old(self)@.new_line(),
    {
        let mut row: usize = 1;
        while row < BUFFER_HEIGHT
            invariant
                1 <= row <= 25,
                self.color_code == old(self).color_code,
                self.column_position == old(self).column_position,
                forall|r: int| 0 <= r < row - 1 ==> #[trigger] self.chars@[r] == old(self).chars@[r + 1],
                forall|r: int| row - 1 <= r < 25 ==> #[trigger] self.chars@[r] == old(self).chars@[r],
            decreases 25 - row,
        {
            let line = self.chars[row];
            self.chars[row - 1] = line;
            row = row + 1;
        }
        self.clear_row(BUFFER_HEIGHT - 1);
        self.column_position = 0;
        assert(self@.rows =~= old(self)@.rows.skip(1).push(blank_row(old(self)@.color)));
    }

    /// Writes `byte` at the end of the last row. A line feed starts a new
    /// line, and so does a byte for which the row has no room.
    pub fn write_byte(&mut self, byte: u8)
        ensures
            final(self)@ == old(self)@.write_byte(byte),
    {
        if byte == LINE_FEED {
            self.new_line();
        } else {
            if self.column_position >= BUFFER_WIDTH {
                self.new_line();
            }
            let row = BUFFER_HEIGHT - 1;
            let col = self.column_position;
            let ghost at = self@;
            let mut line = self.chars[row];
            line[col] = ScreenChar { ascii_character: byte, color_code: self.color_code };
            self.chars[row] = line;
            self.column_position = col + 1;
            assert(self@.rows =~= at.rows.update(
                24,
                at.rows[24].update(
                    at.column,
                    ScreenChar { ascii_character: byte, color_code: at.color },
                ),
            ));
        }
    }

    /// Writes the bytes of `s`, each as it is shown: what is neither
    /// printable ASCII nor a line feed is written as `*`.
    pub fn write_string(&mut self, s: &str)
        ensures
            final(self)@ == old(self)@.write_string(s.spec_bytes()),
    {
        let bytes = s.as_bytes();
        let mut i: usize = 0;
        while i < bytes.len()
            invariant
                0 <= i <= bytes@.len(),
                bytes@ == s.spec_bytes(),
                self@ == old(self)@.write_string(bytes@.take(i as int)),
            decreases bytes@.len() - i,
        {
            let byte = bytes[i];
            assert(bytes@.take(i + 1).drop_last() == bytes@.take(i as int));
            if byte >= 0x20 && byte <= 0x7e || byte == LINE_FEED {
                self.write_byte(byte);
            } else {
                self.write_byte(PLACEHOLDER);
            }
            i = i + 1;
        }
        assert(bytes@.take(i as int) == bytes@);
    }
}

} // verus!
