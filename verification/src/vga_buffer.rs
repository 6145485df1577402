//! The text screen: a buffer of 20 lines of 80 cells that is written at the bottom
//! line and scrolls upwards.

use vstd::prelude::*;

verus! {

/// The sixteen colours of the text screen.
#[derive(Clone, Copy, Debug, PartialEq, Eq, Structural)]
pub enum Color {
    Black,
    Blue,
    Green,
    Cyan,
    Red,
    Magenta,
    Brown,
    LightGray,
    DarkGray,
    LightBlue,
    LightGreen,
    LightCyan,
    LightRed,
    Pink,
    Yellow,
    White,
}

impl Color {
    /// The number of the colour, 0 to 15.
    pub open spec fn code_spec(self) -> u8 {
        match self {
            Color::Black => 0,
            Color::Blue => 1,
            Color::Green => 2,
            Color::Cyan => 3,
            Color::Red => 4,
            Color::Magenta => 5,
            Color::Brown => 6,
            Color::LightGray => 7,
            Color::DarkGray => 8,
            Color::LightBlue => 9,
            Color::LightGreen => 10,
            Color::LightCyan => 11,
            Color::LightRed => 12,
            Color::Pink => 13,
            Color::Yellow => 14,
            Color::White => 15,
        }
    }

    /// The number of the colour, 0 to 15.
    pub fn code(self) -> (c: u8)
        ensures
            c == self.code_spec(),
            c < 16,
    {
        match self {
            Color::Black => 0,
            Color::Blue => 1,
            Color::Green => 2,
            Color::Cyan => 3,
            Color::Red => 4,
            Color::Magenta => 5,
            Color::Brown => 6,
            Color::LightGray => 7,
            Color::DarkGray => 8,
            Color::LightBlue => 9,
            Color::LightGreen => 10,
            Color::LightCyan => 11,
            Color::LightRed => 12,
            Color::Pink => 13,
            Color::Yellow => 14,
            Color::White => 15,
        }
    }
}

/// One cell of the screen: a character and its colours.
#[derive(Copy, Clone, Debug, PartialEq, Eq, Structural)]
pub struct ScreenChar {
    pub chr: u8,
    pub color: u8,
}

pub const BUFFER_HEIGHT: usize = 20;

pub const BUFFER_WIDTH: usize = 80;

/// The colour byte of a cell: the foreground in bits 0 to 3, the background in
/// bits 4 to 7, and the blink bit, which shares bit 7.
pub open spec fn color_code(fg: Color, bg: Color, blink: bool) -> u8 {
    (fg.code_spec() & 0b1111) | ((bg.code_spec() & 0b1111) << 4) | ((if blink {
        1u8
    } else {
        0u8
    }) << 7)
}

/// An empty cell.
pub open spec fn blank() -> ScreenChar {
    ScreenChar { chr: 32, color: 0 }
}

/// An empty line.
pub open spec fn blank_line() -> Seq<ScreenChar> {
    Seq::new(80, |c: int| blank())
}

/// What the contracts see of the screen writer.
pub struct ScreenView {
    /// The column that the next character goes to.
    pub col: int,
    /// The line that is written: always the last.
    pub row: int,
    pub fg: Color,
    pub bg: Color,
    pub blink: bool,
    /// The cells, line by line from the top.
    pub cells: Seq<Seq<ScreenChar>>,
}

impl ScreenView {
    pub open spec fn wf(self) -> bool {
        &&& 0 <= self.col < 80
        &&& self.row == 19
        &&& self.cells.len() == 20
        &&& forall|r: int| 0 <= r < 20 ==> (#[trigger] self.cells[r]).len() == 80
    }

    /// The screen with line `line` emptied.
    pub open spec fn clear_line(self, line: int) -> ScreenView {
        ScreenView { cells: self.cells.update(line, blank_line()), ..self }
    }

    /// The screen with every line emptied; the column stays.
    pub open spec fn clear(self) -> ScreenView {
        ScreenView { cells: Seq::new(20, |r: int| blank_line()), ..self }
    }

    /// The screen after a new line: every line moves up by one, the top line is
    /// lost, the bottom line is empty, and writing goes on at its start.
    pub open spec fn new_line(self) -> ScreenView {
        ScreenView {
            col: 0,
            cells: Seq::new(
                20,
                |r: int|
                    if r < 19 {
                        self.cells[r + 1]
                    } else {
                        blank_line()
                    },
            ),
            ..self
        }
    }

    /// The screen after one byte was written: a line feed begins a new line; any
    /// other byte goes into the cell at the cursor, in the colours set, and the
    /// cursor moves on, to a new line where the line is full.
    pub open spec fn write(self, byte: u8) -> ScreenView {
        if byte == 10 {
            self.new_line()
        } else {
            let put = ScreenView {
                col: self.col + 1,
                cells: self.cells.update(
                    self.row,
                    self.cells[self.row].update(
                        self.col,
                        ScreenChar { chr: byte, color: color_code(self.fg, self.bg, self.blink) },
                    ),
                ),
                ..self
            };
            if put.col == 80 {
                put.new_line()
            } else {
                put
            }
        }
    }

    /// The screen after the first `n` of the characters were written, each cut down
    /// to its low eight bits.
    pub open spec fn write_chars(self, s: Seq<char>, n: nat) -> ScreenView
        decreases n,
    {
        if n == 0 {
            self
        } else {
            self.write_chars(s, (n - 1) as nat).write(s[n - 1] as u8)
        }
    }

    /// The characters of the line that lies `line` lines above the bottom line.
    pub open spec fn line_chars(self, line: int) -> Seq<u8> {
        Seq::new(80, |c: int| self.cells[19 - line][c].chr)
    }
}

/// The screen writer.
pub struct ScreenWriter {
    col: usize,
    row: usize,
    fg_color: Color,
    bg_color: Color,
    blink: bool,
    buffer: [[ScreenChar; 80]; 20],
}

impl View for ScreenWriter {
    type V = ScreenView;

    closed spec fn view(&self) -> ScreenView {
        ScreenView {
            col: self.col as int,
            row: self.row as int,
            fg: self.fg_color,
            bg: self.bg_color,
            blink: self.blink,
            cells: Seq::new(20, |r: int| self.buffer@[r]@),
        }
    }
}

impl ScreenWriter {
    pub open spec fn wf(&self) -> bool {
        self@.wf()
    }

    /// A writer over an empty screen, at the start of the bottom line, white on black.
    pub fn new() -> (w: ScreenWriter)
        ensures
            w.wf(),
            w@ == (ScreenView {
                col: 0,
                row: 19,
                fg: Color::White,
                bg: Color::Black,
                blink: false,
                cells: Seq::new(20, |r: int| blank_line()),
            }),
    {
        let line = [ScreenChar { chr: 32, color: 0 };80];
        let w = ScreenWriter {
            col: 0,
            row: BUFFER_HEIGHT - 1,
            fg_color: Color::White,
            bg_color: Color::Black,
            blink: false,
            buffer: [line;20],
        };
        proof {
            assert(line@ =~= blank_line());
            assert(w@.cells =~= Seq::new(20, |r: int| blank_line()));
        }
        w
    }

    /// Writes one byte at the cursor.
    pub fn write(&mut self, byte: u8)
        requires
            old(self).wf(),
        ensures
            final(self).wf(),
            final(self)@ == old(self)@.write(byte),
    {
        if byte == 10 {
            self.new_line();
        } else {
            let fg_u4: u8 = self.fg_color.code() & 0b1111;
            let bg: u8 = self.bg_color.code();
            let bg_u3: u8 = bg & 0b1111;
            let blink: u8 = if self.blink {
                1
            } else {
                0
            };
            assert(bg_u3 < 16) by (bit_vector)
                requires
                    bg_u3 == bg & 0b1111,
            ;
            let color_code: u8 = fg_u4 | bg_u3 << 4 | blink << 7;
            let ghost before = self@;
            self.buffer[self.row][self.col] = ScreenChar { chr: byte, color: color_code };
            self.col += 1;
            proof {
                let put = ScreenView {
                    col: before.col + 1,
                    cells: before.cells.update(
                        before.row,
                        before.cells[before.row].update(
                            before.col,
                            ScreenChar {
                                chr: byte,
                                color: crate::vga_buffer::color_code(
                                    before.fg,
                                    before.bg,
                                    before.blink,
                                ),
                            },
                        ),
                    ),
                    ..before
                };
                assert(self@.cells =~= put.cells);
                assert(self@ == put);
            }
            if self.col == BUFFER_WIDTH {
                self.col = 0;
                self.new_line();
            }
        }
    }

    /// Begins a new line.
    pub fn new_line(&mut self)
        requires
            old(self).wf(),
        ensures
            final(self).wf(),
            final(self)@ == old(self)@.new_line(),
    {
        let mut r: usize = 0;
        while r < BUFFER_HEIGHT - 1
            invariant
                r <= 19,
                self.col == old(self).col,
                self.row == old(self).row,
                self.fg_color == old(self).fg_color,
                self.bg_color == old(self).bg_color,
                self.blink == old(self).blink,
                forall|i: int| 0 <= i < r ==> (#[trigger] self.buffer@[i]) == old(self).buffer@[i + 1],
                forall|i: int| r <= i < 20 ==> (#[trigger] self.buffer@[i]) == old(self).buffer@[i],
            decreases 19 - r,
        {
            let below = self.buffer[r + 1];
            self.buffer[r] = below;
            r += 1;
        }
        self.clear_row(BUFFER_HEIGHT - 1);
        self.col = 0;
        assert(self@.cells =~= old(self)@.new_line().cells);
    }

    /// Empties the screen.
    pub fn clear(&mut self)
        requires
            old(self).wf(),
        ensures
            final(self).wf(),
            final(self)@ == old(self)@.clear(),
    {
        let mut r: usize = 0;
        while r < BUFFER_HEIGHT
            invariant
                r <= 20,
                self.col == old(self).col,
                self.row == old(self).row,
                self.fg_color == old(self).fg_color,
                self.bg_color == old(self).bg_color,
                self.blink == old(self).blink,
                forall|i: int| 0 <= i < r ==> (#[trigger] self.buffer@[i])@ == blank_line(),
            decreases 20 - r,
        {
            self.clear_row(r);
            r += 1;
        }
        assert(self@.cells =~= old(self)@.clear().cells);
    }

    /// Empties the line `line`, counted from the top.
    pub fn clear_line(&mut self, line: usize)
        requires
            old(self).wf(),
            line < BUFFER_HEIGHT,
        ensures
            final(self).wf(),
            final(self)@ == old(self)@.clear_line(line as int),
    {
        self.clear_row(line);
    }

    /// Empties the line `line` and touches nothing else.
    fn clear_row(&mut self, line: usize)
        requires
            line < BUFFER_HEIGHT,
        ensures
            final(self)@ == old(self)@.clear_line(line as int),
            final(self).buffer@ == old(self).buffer@.update(
                line as int,
                final(self).buffer@[line as int],
            ),
            final(self).buffer@[line as int]@ == blank_line(),
            final(self).col == old(self).col,
            final(self).row == old(self).row,
            final(self).fg_color == old(self).fg_color,
            final(self).bg_color == old(self).bg_color,
            final(self).blink == old(self).blink,
    {
        let empty = [ScreenChar { chr: 32, color: 0 };80];
        assert(empty@ =~= blank_line());
        self.buffer[line] = empty;
        assert(self@.cells =~= old(self)@.clear_line(line as int).cells);
    }

    pub fn set_fg(&mut self, color: Color)
        ensures
            final(self)@ == (ScreenView { fg: color, ..old(self)@ }),
    {
        self.fg_color = color;
    }

    pub fn set_bg(&mut self, color: Color)
        ensures
            final(self)@ == (ScreenView { bg: color, ..old(self)@ }),
    {
        self.bg_color = color;
    }

    pub fn set_blink(&mut self, blink: bool)
        ensures
            final(self)@ == (ScreenView { blink, ..old(self)@ }),
    {
        self.blink = blink;
    }

    /// The cell in line `row`, counted from the top, and column `col`.
    pub fn cell(&self, row: usize, col: usize) -> (c: ScreenChar)
        requires
            row < BUFFER_HEIGHT,
            col < BUFFER_WIDTH,
        ensures
            c == self@.cells[row as int][col as int],
    {
        self.buffer[row][col]
    }

    /// The characters of the line that lies `line` lines above the bottom line.
    pub fn get_line(&self, line: usize) -> (l: [u8; 80])
        requires
            line < BUFFER_HEIGHT,
        ensures
            l@ == self@.line_chars(line as int),
    {
        let mut line_buf = [0u8;80];
        let mut i: usize = 0;
        while i < BUFFER_WIDTH
            invariant
                i <= 80,
                line < 20,
                forall|c: int| 0 <= c < i ==> #[trigger] line_buf@[c] == self.buffer@[19 - line]@[c].chr,
            decreases 80 - i,
        {
            line_buf[i] = self.buffer[BUFFER_HEIGHT - 1 - line][i].chr;
            i += 1;
        }
        assert(line_buf@ =~= self@.line_chars(line as int));
        line_buf
    }
}

/// Empties the screen.
pub fn cls(writer: &mut ScreenWriter)
    requires
        old(writer).wf(),
    ensures
        final(writer).wf(),
        final(writer)@ == old(writer)@.clear(),
{
    writer.clear();
}

/// Sets the colours that the next characters are written in.
pub fn set_color(writer: &mut ScreenWriter, fg: Color, bg: Color, blink: bool)
    ensures
        final(writer)@ == (ScreenView { fg, bg, blink, ..old(writer)@ }),
{
    writer.set_fg(fg);
    writer.set_bg(bg);
    writer.set_blink(blink);
}

impl ScreenWriter {
    /// Writes the characters of `s`, each cut down to its low eight bits.
    pub fn write_str(&mut self, s: &str)
        requires
            old(self).wf(),
        ensures
            final(self).wf(),
            final(self)@ == old(self)@.write_chars(s@, s@.len()),
    {
        let n = s.unicode_len();
        let mut i: usize = 0;
        while i < n
            invariant
                i <= n,
                n == s@.len(),
                self.wf(),
                self@ == old(self)@.write_chars(s@, i as nat),
            decreases n - i,
        {
            let c = s.get_char(i);
            self.write(c as u8);
            i += 1;
        }
    }
}

/// Writes `s` to the screen.
pub fn _print(writer: &mut ScreenWriter, s: &str)
    requires
        old(writer).wf(),
    ensures
        final(writer).wf(),
        final(writer)@ == old(writer)@.write_chars(s@, s@.len()),
{
    writer.write_str(s);
}

} // verus!
