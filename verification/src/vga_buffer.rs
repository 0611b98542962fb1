use vstd::prelude::*;

verus! {

/// The sixteen colors of the text-mode palette.
#[derive(Debug, Clone, Copy, PartialEq, Eq)]
#[allow(dead_code)]
pub enum Color {
    Black,
    Blue,
    Green,
    Cyan,
    Red,
    Magenta,
    Brown,
    LightGray,
    DarkGray,
    LightBlue,
    LightGreen,
    LightCyan,
    LightRed,
    Pink,
    Yellow,
    White,
}

/// The palette number of a color.
pub open spec fn spec_color_value(c: Color) -> u8 {
    match c {
        Color::Black => 0,
        Color::Blue => 1,
        Color::Green => 2,
        Color::Cyan => 3,
        Color::Red => 4,
        Color::Magenta => 5,
        Color::Brown => 6,
        Color::LightGray => 7,
        Color::DarkGray => 8,
        Color::LightBlue => 9,
        Color::LightGreen => 10,
        Color::LightCyan => 11,
        Color::LightRed => 12,
        Color::Pink => 13,
        Color::Yellow => 14,
        Color::White => 15,
    }
}

/// The palette number of a color.
pub fn color_value(c: Color) -> (r: u8)
    ensures
        r == spec_color_value(c),
{
    match c {
        Color::Black => 0,
        Color::Blue => 1,
        Color::Green => 2,
        Color::Cyan => 3,
        Color::Red => 4,
        Color::Magenta => 5,
        Color::Brown => 6,
        Color::LightGray => 7,
        Color::DarkGray => 8,
        Color::LightBlue => 9,
        Color::LightGreen => 10,
        Color::LightCyan => 11,
        Color::LightRed => 12,
        Color::Pink => 13,
        Color::Yellow => 14,
        Color::White => 15,
    }
}

/// One text-mode attribute byte: background color in the high four bits,
/// foreground color in the low four.
#[derive(Debug, Clone, Copy, PartialEq, Eq, Structural)]
pub struct ColorCode(u8);

impl View for ColorCode {
    type V = u8;

    closed spec fn view(&self) -> u8 {
        self.0
    }
}

impl ColorCode {
    /// Combine a foreground and a background color into one attribute byte.
    pub fn new(fg: Color, bg: Color) -> (r: ColorCode)
        ensures
            r@ == 16 * spec_color_value(bg) + spec_color_value(fg),
    {
        let f = color_value(fg);
        let b = color_value(bg);
        proof {
            assert((b << 4) | f == 16 * b + f) by (bit_vector)
                requires
                    b < 16 && f < 16,
            ;
        }
        ColorCode((b << 4) | f)
    }

    /// The attribute byte itself.
    pub fn value(self) -> (r: u8)
        ensures
            r == self@,
    {
        self.0
    }
}

/// The byte the display driver actually writes for `byte`: printable
/// seven-bit characters and the newline pass through, anything else shows as
/// the replacement glyph `0xfe`.
pub open spec fn spec_screen_byte(byte: u8) -> u8 {
    if (0x20 <= byte && byte <= 0x7e) || byte == 0x0a {
        byte
    } else {
        0xfe
    }
}

/// The byte the display driver actually writes for `byte`.
pub fn screen_byte(byte: u8) -> (r: u8)
    ensures
        r == spec_screen_byte(byte),
{
    if (0x20 <= byte && byte <= 0x7e) || byte == 0x0a {
        byte
    } else {
        0xfe
    }
}

/// Rows of the text-mode cell matrix.
pub const BUFFER_HEIGHT: usize = 25;

/// Columns of the text-mode cell matrix.
pub const BUFFER_WIDTH: usize = 80;

/// One text cell: a character byte and its attribute byte.
#[derive(Debug, Clone, Copy, PartialEq, Eq, Structural)]
pub struct ScreenChar {
    pub ch: u8,
    pub color_code: u8,
}

/// A full row of blank cells in the given color.
pub open spec fn spec_blank_row(color_code: u8) -> Seq<ScreenChar> {
    Seq::new(BUFFER_WIDTH as nat, |c: int| ScreenChar { ch: 0x20, color_code })
}

/// Ghost model of the writer: the visible cell matrix, the cursor column in
/// the bottom row, and the active color.
pub ghost struct WriterModel {
    pub chars: Seq<Seq<ScreenChar>>,
    pub column_pos: int,
    pub color_code: u8,
}

/// Well-formed writer state: a full matrix and a cursor inside the row.
pub open spec fn writer_inv(m: WriterModel) -> bool {
    &&& m.chars.len() == BUFFER_HEIGHT
    &&& forall|r: int| 0 <= r < m.chars.len() ==> (#[trigger] m.chars[r]).len() == BUFFER_WIDTH
    &&& 0 <= m.column_pos <= BUFFER_WIDTH
}

/// Scrolling: every row moves up one place, the bottom row clears, and the
/// cursor returns to the row start.
pub open spec fn spec_new_line(m: WriterModel) -> WriterModel {
    WriterModel {
        chars: m.chars.remove(0).push(spec_blank_row(m.color_code)),
        column_pos: 0,
        ..m
    }
}

/// Writing one byte: a newline scrolls; anything else lands at the cursor in
/// the bottom row, after a scroll when that row is already full, and the
/// cursor advances.
pub open spec fn spec_write_byte(m: WriterModel, byte: u8) -> WriterModel {
    if byte == 0x0a {
        spec_new_line(m)
    } else {
        let m1 = if m.column_pos >= BUFFER_WIDTH {
            spec_new_line(m)
        } else {
            m
        };
        let row = (BUFFER_HEIGHT - 1) as int;
        WriterModel {
            chars: m1.chars.update(
                row,
                m1.chars[row].update(
                    m1.column_pos,
                    ScreenChar { ch: byte, color_code: m1.color_code },
                ),
            ),
            column_pos: m1.column_pos + 1,
            ..m1
        }
    }
}

/// Writing a string of bytes: each one is filtered to the printable set and
/// written in turn.
pub open spec fn spec_write_bytes(m: WriterModel, s: Seq<u8>) -> WriterModel
    decreases s.len(),
{
    if s.len() == 0 {
        m
    } else {
        spec_write_bytes(spec_write_byte(m, spec_screen_byte(s[0])), s.drop_first())
    }
}

proof fn lemma_write_bytes_snoc(m: WriterModel, s: Seq<u8>, b: u8)
    ensures
        spec_write_bytes(m, s.push(b)) == spec_write_byte(
            spec_write_bytes(m, s),
            spec_screen_byte(b),
        ),
    decreases s.len(),
{
    reveal_with_fuel(spec_write_bytes, 2);
    if s.len() == 0 {
        assert(s.push(b)[0] == b);
        assert(s.push(b).drop_first() =~= Seq::<u8>::empty());
    } else {
        assert(s.push(b)[0] == s[0]);
        assert(s.push(b).drop_first() =~= s.drop_first().push(b));
        lemma_write_bytes_snoc(spec_write_byte(m, spec_screen_byte(s[0])), s.drop_first(), b);
    }
}

fn blank_row(color_code: u8) -> (r: Vec<ScreenChar>)
    ensures
        r@ == spec_blank_row(color_code),
{
    let cell = ScreenChar { ch: 0x20, color_code };
    let row: Vec<ScreenChar> = vec![cell; BUFFER_WIDTH];
    proof {
        assert(row@ =~= spec_blank_row(color_code));
    }
    row
}

/// The text-mode writer's state machine: the cell matrix it would display,
/// the cursor, and the active color. On hardware the matrix is mirrored into
/// the display's memory-mapped cells; here it is plain verified data.
pub struct Writer {
    column_pos: usize,
    color_code: ColorCode,
    buffer: Vec<Vec<ScreenChar>>,
}

impl View for Writer {
    type V = WriterModel;

    closed spec fn view(&self) -> WriterModel {
        WriterModel {
            chars: Seq::new(self.buffer@.len(), |r: int| self.buffer@[r]@),
            column_pos: self.column_pos as int,
            color_code: self.color_code@,
        }
    }
}

impl Writer {
    /// A blank screen in `color`, with the cursor at the row start.
    pub fn new(color: ColorCode) -> (r: Writer)
        ensures
            writer_inv(r@),
            r@.column_pos == 0,
            r@.color_code == color@,
            forall|row: int|
                0 <= row < BUFFER_HEIGHT ==> #[trigger] r@.chars[row] == spec_blank_row(color@),
    {
        let mut buffer: Vec<Vec<ScreenChar>> = Vec::new();
        let mut k: usize = 0;
        while k < BUFFER_HEIGHT
            invariant
                k <= BUFFER_HEIGHT,
                buffer@.len() == k,
                forall|row: int| 0 <= row < k ==> (#[trigger] buffer@[row])@ == spec_blank_row(
                    color@,
                ),
            decreases BUFFER_HEIGHT - k,
        {
            buffer.push(blank_row(color.value()));
            k = k + 1;
        }
        Writer { column_pos: 0, color_code: color, buffer }
    }

    /// Write one byte at the cursor, scrolling on a newline or a full row.
    pub fn write_byte(&mut self, byte: u8)
        requires
            writer_inv(old(self)@),
        ensures
            writer_inv(final(self)@),
            final(self)@ == spec_write_byte(old(self)@, byte),
    {
        if byte == 0x0a {
            self.new_line();
        } else {
            if self.column_pos >= BUFFER_WIDTH {
                self.new_line();
            }
            let ghost m1 = self@;
            proof {
                assert(m1.chars[(BUFFER_HEIGHT - 1) as int].len() == BUFFER_WIDTH);
            }
            let c = self.column_pos;
            let cc = self.color_code.value();
            let row = &mut self.buffer[BUFFER_HEIGHT - 1];
            let cell = &mut row[c];
            *cell = ScreenChar { ch: byte, color_code: cc };
            self.column_pos = c + 1;
            proof {
                let rix = (BUFFER_HEIGHT - 1) as int;
                assert(self@.chars =~~= m1.chars.update(
                    rix,
                    m1.chars[rix].update(
                        c as int,
                        ScreenChar { ch: byte, color_code: m1.color_code },
                    ),
                ));
            }
        }
    }

    /// Write a whole string, filtering each byte to the printable set.
    pub fn write_string(&mut self, s: &[u8])
        requires
            writer_inv(old(self)@),
        ensures
            writer_inv(final(self)@),
            final(self)@ == spec_write_bytes(old(self)@, s@),
    {
        let ghost m0 = self@;
        let mut i: usize = 0;
        while i < s.len()
            invariant
                m0 == old(self)@,
                writer_inv(self@),
                i <= s@.len(),
                self@ == spec_write_bytes(m0, s@.take(i as int)),
            decreases s@.len() - i,
        {
            let b = screen_byte(s[i]);
            self.write_byte(b);
            proof {
                lemma_write_bytes_snoc(m0, s@.take(i as int), s@[i as int]);
                assert(s@.take(i + 1) =~= s@.take(i as int).push(s@[i as int]));
            }
            i = i + 1;
        }
        proof {
            assert(s@.take(s@.len() as int) =~= s@);
        }
    }

    /// Scroll: every row moves up one place and the bottom row clears.
    fn new_line(&mut self)
        requires
            writer_inv(old(self)@),
        ensures
            writer_inv(final(self)@),
            final(self)@ == spec_new_line(old(self)@),
    {
        self.buffer.remove(0);
        self.buffer.push(Vec::new());
        self.clear_row(BUFFER_HEIGHT - 1);
        self.column_pos = 0;
        proof {
            assert(self@.chars =~~= spec_new_line(old(self)@).chars);
        }
    }

    /// Blank out one row in the active color.
    fn clear_row(&mut self, row: usize)
        requires
            old(self)@.chars.len() == BUFFER_HEIGHT,
            row < BUFFER_HEIGHT,
        ensures
            final(self)@ == (WriterModel {
                chars: old(self)@.chars.update(
                    row as int,
                    spec_blank_row(old(self)@.color_code),
                ),
                ..old(self)@
            }),
    {
        let blank = blank_row(self.color_code.value());
        let slot = &mut self.buffer[row];
        *slot = blank;
        proof {
            assert(self@.chars =~~= old(self)@.chars.update(
                row as int,
                spec_blank_row(old(self)@.color_code),
            ));
        }
    }

    /// The cell at `row` and `col`.
    pub fn cell(&self, row: usize, col: usize) -> (sc: ScreenChar)
        requires
            writer_inv(self@),
            row < BUFFER_HEIGHT,
            col < BUFFER_WIDTH,
        ensures
            sc == self@.chars[row as int][col as int],
    {
        proof {
            assert(self@.chars[row as int].len() == BUFFER_WIDTH);
        }
        self.buffer[row][col]
    }

    /// The cursor's column in the bottom row.
    pub fn column(&self) -> (c: usize)
        ensures
            c == self@.column_pos,
    {
        self.column_pos
    }
}

} // verus!
