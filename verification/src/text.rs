//! The text writer: draws characters from the 8x8 font on the framebuffer,
//! keeps a cursor, wraps lines and scrolls the screen up when it is full.
use vstd::prelude::*;
use crate::font::{basic_legacy_glyph, legacy_glyph, GLYPH_COUNT};
use crate::framebuffer::{Framebuffer, FramebufferView, paint, lemma_paint_twice, lemma_paint_same_lit};

verus! {

broadcast use vstd::string::group_string_axioms;

/// Height of a text line in pixels.
pub const LINE_SPACING: usize = 12;

/// Width of a character cell in pixels.
pub const CHAR_WIDTH: usize = 8;

/// Colour of ordinary console text.
pub const TEXT_COLOR: u32 = 0xFFFFFF;

/// Colour that the screen is cleared to.
pub const CLEAR_COLOR: u32 = 0x111111;

/// The backspace character, which erases the cell left of the cursor.
pub const BACKSPACE: char = '\x08';

/// What a writer holds: the screen, how far it has scrolled, and the cursor.
#[verifier::ext_equal]
pub struct WriterView {
    pub screen: FramebufferView,
    pub scroll_y: int,
    pub cursor_x: int,
    pub cursor_y: int,
}

/// A text console drawn on a framebuffer.
pub struct Writer {
    pub framebuffer: Framebuffer,
    pub scroll_y: usize,
    pub cursor_y: usize,
    pub cursor_x: usize,
}

impl View for Writer {
    type V = WriterView;

    open spec fn view(&self) -> WriterView {
        WriterView {
            screen: self.framebuffer@,
            scroll_y: self.scroll_y as int,
            cursor_x: self.cursor_x as int,
            cursor_y: self.cursor_y as int,
        }
    }
}

/// Index of the glyph drawn for `c`: the low byte of its code point.
pub open spec fn glyph_index(c: char) -> int {
    (c as u32) as int % 256
}

/// Whether `c` can be written: backspace, or a character whose glyph index
/// lies within the font table.
pub open spec fn printable(c: char) -> bool {
    c == BACKSPACE || glyph_index(c) < GLYPH_COUNT
}

/// Whether column `col` of a glyph row is lit.
pub open spec fn glyph_bit(row: u8, col: usize) -> bool {
    (row >> col) & 1u8 != 0u8
}

/// The pixels lit by `glyph` drawn with its top-left corner at `(x, y)`.
pub open spec fn glyph_lit(glyph: Seq<u8>, x: int, y: int) -> spec_fn(int, int) -> bool {
    |a: int, b: int| x <= a < x + 8 && y <= b < y + 8 && glyph_bit(glyph[b - y], (a - x) as usize)
}

/// The screen shifted up by `lines` rows, with the rows uncovered at the
/// bottom filled with `color`.
pub open spec fn shifted_up(screen: FramebufferView, lines: int, color: u32) -> FramebufferView {
    FramebufferView {
        image: Map::new(
            |p: (int, int)| screen.image.dom().contains(p),
            |p: (int, int)| if p.1 < screen.height - lines { screen.image[(p.0, p.1 + lines)] } else { color },
        ),
        ..screen
    }
}

impl WriterView {
    /// The writer after scrolling up by `lines` rows.
    pub open spec fn scrolled(self, lines: int, color: u32) -> WriterView {
        WriterView {
            screen: shifted_up(self.screen, lines, color),
            scroll_y: self.scroll_y + lines,
            cursor_y: self.cursor_y - lines,
            ..self
        }
    }

    /// Whether the next character would fall below the screen, so that the
    /// writer scrolls first.
    pub open spec fn must_scroll(self) -> bool {
        self.cursor_y + LINE_SPACING > self.screen.height + self.scroll_y
    }

    /// The writer after writing the character `c` in `color`.
    pub open spec fn put_char(self, c: char, color: u32) -> WriterView {
        let s = if self.must_scroll() { self.scrolled(LINE_SPACING as int, self.screen.bg_color) } else { self };
        if c == BACKSPACE {
            if s.cursor_x > 0 {
                let x = s.cursor_x - CHAR_WIDTH;
                WriterView {
                    screen: s.screen.with_rectangle(x, s.cursor_y, CHAR_WIDTH as int, LINE_SPACING as int, s.screen.bg_color),
                    cursor_x: x,
                    ..s
                }
            } else {
                s
            }
        } else {
            let screen = s.screen.painted(
                glyph_lit(basic_legacy_glyph(glyph_index(c) as usize), s.cursor_x, s.cursor_y),
                color,
            );
            let x = s.cursor_x + CHAR_WIDTH;
            if x + CHAR_WIDTH > s.screen.width || c == '\n' {
                WriterView { screen, cursor_x: 0, cursor_y: s.cursor_y + LINE_SPACING, ..s }
            } else {
                WriterView { screen, cursor_x: x, ..s }
            }
        }
    }

    /// The writer after writing every character of `text`, in order, in `color`.
    pub open spec fn print(self, text: Seq<char>, color: u32) -> WriterView
        decreases text.len(),
    {
        if text.len() == 0 {
            self
        } else {
            self.print(text.drop_last(), color).put_char(text.last(), color)
        }
    }

    /// The writer after writing `text` as a line of its own: from the left
    /// edge, ending on the next line at the left edge.
    pub open spec fn print_string(self, text: Seq<char>, color: u32) -> WriterView {
        let s = self.at_line_start().print(text, color);
        WriterView { cursor_x: 0, cursor_y: s.cursor_y + LINE_SPACING, ..s }
    }

    /// The writer with its cursor moved to the left edge.
    pub open spec fn at_line_start(self) -> WriterView {
        WriterView { cursor_x: 0, ..self }
    }

    /// The writer with its cursor at the top-left corner.
    pub open spec fn cursor_reset(self) -> WriterView {
        WriterView { cursor_x: 0, cursor_y: 0, ..self }
    }

    /// The writer with its whole screen in the clear colour.
    pub open spec fn screen_cleared(self) -> WriterView {
        WriterView {
            screen: self.screen.with_rectangle(0, 0, self.screen.width, self.screen.height, CLEAR_COLOR),
            ..self
        }
    }

    /// Room to write `n` more characters without any counter overflowing.
    pub open spec fn room(self, n: int) -> bool {
        &&& self.cursor_y + LINE_SPACING * n + 2 * LINE_SPACING <= usize::MAX
        &&& self.screen.height + self.scroll_y + LINE_SPACING * n + 2 * LINE_SPACING <= usize::MAX
        &&& self.cursor_x + 2 * CHAR_WIDTH <= usize::MAX
        &&& self.screen.width + 2 * CHAR_WIDTH <= usize::MAX
    }
}

impl WriterView {
    /// The cursor sits on the character grid, nothing is negative, and the
    /// screen is at least one line high.
    pub open spec fn on_grid(self) -> bool {
        &&& self.cursor_x >= 0
        &&& self.cursor_y >= 0
        &&& self.scroll_y >= 0
        &&& self.screen.width >= 0
        &&& self.screen.height >= LINE_SPACING
        &&& self.cursor_x % CHAR_WIDTH as int == 0
        &&& self.cursor_y % LINE_SPACING as int == 0
    }
}

/// Writing one character keeps the writer on its grid and uses up room for
/// one character.
pub proof fn lemma_put_char_room(s: WriterView, c: char, color: u32, n: int)
    requires
        s.on_grid(),
        s.room(n + 1),
        n >= 0,
    ensures
        s.put_char(c, color).on_grid(),
        s.put_char(c, color).room(n),
        s.put_char(c, color).screen.width == s.screen.width,
        s.put_char(c, color).screen.height == s.screen.height,
        s.put_char(c, color).screen.bg_color == s.screen.bg_color,
{
}

/// Writing a text of `n` characters keeps the writer on its grid.
pub proof fn lemma_print_room(s: WriterView, text: Seq<char>, color: u32, n: int)
    requires
        s.on_grid(),
        s.room(n + text.len()),
        n >= 0,
    ensures
        s.print(text, color).on_grid(),
        s.print(text, color).room(n),
        s.print(text, color).screen.width == s.screen.width,
        s.print(text, color).screen.height == s.screen.height,
        s.print(text, color).screen.bg_color == s.screen.bg_color,
    decreases text.len(),
{
    if text.len() > 0 {
        lemma_print_room(s, text.drop_last(), color, n + 1);
        lemma_put_char_room(s.print(text.drop_last(), color), text.last(), color, n);
    }
}

/// Writing `a` and then `b` leaves the writer as writing `a + b` at once does.
pub proof fn lemma_print_concat(s: WriterView, a: Seq<char>, b: Seq<char>, color: u32)
    ensures
        s.print(a + b, color) == s.print(a, color).print(b, color),
    decreases b.len(),
{
    if b.len() == 0 {
        assert(a + b =~= a);
    } else {
        assert((a + b).drop_last() =~= a + b.drop_last());
        assert((a + b).last() == b.last());
        lemma_print_concat(s, a, b.drop_last(), color);
    }
}

/// A blank glyph row lights no column.
pub proof fn lemma_blank_row(col: usize)
    ensures
        !glyph_bit(0u8, col),
{
    assert((0u8 >> col) & 1u8 == 0u8) by (bit_vector);
}

/// Wrapping keeps the cursor within the screen: it either stands at the
/// left edge or has a whole character cell to its right.
pub proof fn lemma_cursor_within_width(s: WriterView, text: Seq<char>, color: u32)
    requires
        s.cursor_x == 0 || s.cursor_x + CHAR_WIDTH <= s.screen.width,
    ensures
        s.print(text, color).cursor_x == 0 || s.print(text, color).cursor_x + CHAR_WIDTH <= s.print(text, color).screen.width,
        s.print(text, color).screen.width == s.screen.width,
    decreases text.len(),
{
    if text.len() > 0 {
        lemma_cursor_within_width(s, text.drop_last(), color);
    }
}

/// One character keeps the cursor on the 8 x 12 character grid and within
/// the screen's width, and the scroll position a whole number of lines.
pub proof fn lemma_put_char_grid(s: WriterView, c: char, color: u32)
    requires
        s.on_grid(),
        s.scroll_y % LINE_SPACING as int == 0,
        s.cursor_x + CHAR_WIDTH <= s.screen.width,
    ensures
        s.put_char(c, color).on_grid(),
        s.put_char(c, color).scroll_y % LINE_SPACING as int == 0,
        s.put_char(c, color).cursor_x + CHAR_WIDTH <= s.put_char(c, color).screen.width,
        s.put_char(c, color).screen.width == s.screen.width,
        s.put_char(c, color).screen.height == s.screen.height,
{
}

/// Writing any text keeps the cursor on the 8 x 12 character grid and
/// within the screen's width, and the scroll position a whole number of lines.
pub proof fn lemma_print_keeps_grid(s: WriterView, text: Seq<char>, color: u32)
    requires
        s.on_grid(),
        s.scroll_y % LINE_SPACING as int == 0,
        s.cursor_x + CHAR_WIDTH <= s.screen.width,
    ensures
        s.print(text, color).on_grid(),
        s.print(text, color).scroll_y % LINE_SPACING as int == 0,
        s.print(text, color).cursor_x + CHAR_WIDTH <= s.print(text, color).screen.width,
        s.print(text, color).screen.width == s.screen.width,
        s.print(text, color).screen.height == s.screen.height,
    decreases text.len(),
{
    if text.len() > 0 {
        lemma_print_keeps_grid(s, text.drop_last(), color);
        lemma_put_char_grid(s.print(text.drop_last(), color), text.last(), color);
    }
}

/// Where the cursor goes when a character is written. The writer first
/// scrolls up one line when the line would fall below the screen. Then a
/// newline always starts the next line at the left edge, wherever the
/// cursor stood; a backspace moves one cell left (staying put at the left
/// edge); any other character moves one cell right, or to the start of the
/// next line when no further whole cell fits on the screen.
pub proof fn lemma_put_char_cursor(s: WriterView, c: char, color: u32)
    ensures
        ({
            let t = s.put_char(c, color);
            let scrolls = s.cursor_y + 12 > s.screen.height + s.scroll_y;
            let row = if scrolls { s.cursor_y - 12 } else { s.cursor_y };
            &&& t.scroll_y == (if scrolls { s.scroll_y + 12 } else { s.scroll_y })
            &&& t.screen.width == s.screen.width
            &&& t.screen.height == s.screen.height
            &&& t.screen.bg_color == s.screen.bg_color
            &&& c == '\n' ==> t.cursor_x == 0 && t.cursor_y == row + 12
            &&& c == '\x08' ==> t.cursor_y == row && t.cursor_x == (if s.cursor_x > 0 { s.cursor_x - 8 } else { s.cursor_x })
            &&& (c != '\n' && c != '\x08' && s.cursor_x + 16 > s.screen.width) ==> t.cursor_x == 0 && t.cursor_y == row + 12
            &&& (c != '\n' && c != '\x08' && s.cursor_x + 16 <= s.screen.width) ==> t.cursor_x == s.cursor_x + 8 && t.cursor_y == row
        }),
{
}

/// What a character does to the pixels when the writer need not scroll:
/// a backspace at the left edge changes nothing; any other backspace fills
/// the 8 x 12 cell left of the cursor with the background colour; any other
/// character lights, in `color`, the pixels of the cursor's 8 x 8 cell whose
/// bit is set in the font's glyph for the low byte of the character's code
/// (bit `i` of row `r` for the pixel `i` right and `r` down of the cursor).
/// No other pixel changes.
pub proof fn lemma_put_char_pixels(s: WriterView, c: char, color: u32, x: int, y: int)
    requires
        s.cursor_y + 12 <= s.screen.height + s.scroll_y,
    ensures
        ({
            let t = s.put_char(c, color);
            let cx = s.cursor_x;
            let cy = s.cursor_y;
            let glyph = basic_legacy_glyph(((c as u32) % 256) as usize);
            &&& t.screen.image.dom() == s.screen.image.dom()
            &&& (c == '\x08' && cx == 0) ==> t == s
            &&& (c == '\x08' && cx > 0 && s.screen.image.dom().contains((x, y))) ==> t.screen.image[(x, y)] == (
                if cx - 8 <= x < cx && cy <= y < cy + 12 { s.screen.bg_color } else { s.screen.image[(x, y)] })
            &&& (c != '\x08' && s.screen.image.dom().contains((x, y))) ==> t.screen.image[(x, y)] == (
                if cx <= x < cx + 8 && cy <= y < cy + 8 && (glyph[y - cy] >> ((x - cx) as usize)) & 1u8 != 0u8 {
                    color
                } else {
                    s.screen.image[(x, y)]
                })
        }),
{
    let t = s.put_char(c, color);
    assert(t.screen.image.dom() =~= s.screen.image.dom());
    assert((((c as u32) % 256) as usize) == glyph_index(c) as usize);
}

/// Scrolling up by `lines` moves every pixel up by `lines` rows and fills
/// the rows uncovered at the bottom with `color`; the cursor moves up with
/// the text and the scroll position grows by `lines`.
pub proof fn lemma_scrolled_pixels(s: WriterView, lines: int, color: u32, x: int, y: int)
    ensures
        ({
            let t = s.scrolled(lines, color);
            &&& t.screen.image.dom() == s.screen.image.dom()
            &&& t.cursor_y == s.cursor_y - lines
            &&& t.cursor_x == s.cursor_x
            &&& t.scroll_y == s.scroll_y + lines
            &&& s.screen.image.dom().contains((x, y)) ==> t.screen.image[(x, y)] == (
                if y < s.screen.height - lines { s.screen.image[(x, y + lines)] } else { color })
        }),
{
    assert(s.scrolled(lines, color).screen.image.dom() =~= s.screen.image.dom());
}

/// Printing two newlines from anywhere leaves one empty line: the cursor
/// ends two lines further down at the left edge (when no scrolling is needed).
pub proof fn lemma_two_newlines(s: WriterView, color: u32)
    requires
        s.cursor_y + 24 <= s.screen.height + s.scroll_y,
    ensures
        s.print(seq!['\n', '\n'], color).cursor_x == 0,
        s.print(seq!['\n', '\n'], color).cursor_y == s.cursor_y + 24,
{
    assert(seq!['\n', '\n'].drop_last() =~= seq!['\n']);
    assert(seq!['\n'].drop_last() =~= Seq::<char>::empty());
    assert(s.print(Seq::empty(), color) == s);
    assert(s.print(seq!['\n'], color) == s.put_char('\n', color));
    assert(s.print(seq!['\n', '\n'], color) == s.put_char('\n', color).put_char('\n', color));
    lemma_put_char_cursor(s, '\n', color);
    lemma_put_char_cursor(s.put_char('\n', color), '\n', color);
}

/// Writing a text as a line of its own writes it from the left edge,
/// exactly as `print` would from there, and then moves the cursor to the
/// left edge one line further down.
pub proof fn lemma_print_string_line(s: WriterView, text: Seq<char>, color: u32)
    ensures
        ({
            let p = WriterView { cursor_x: 0, ..s }.print(text, color);
            let t = s.print_string(text, color);
            &&& t.screen == p.screen
            &&& t.scroll_y == p.scroll_y
            &&& t.cursor_x == 0
            &&& t.cursor_y == p.cursor_y + 12
        }),
{
}

/// Every character of `text` can be written.
pub open spec fn all_printable(text: Seq<char>) -> bool {
    forall|i: int| 0 <= i < text.len() ==> printable(#[trigger] text[i])
}

/// The welcome banner.
pub open spec fn welcome_text() -> Seq<char> {
    "Welcome to GUIneu :D\nMade by Segfault, Jake and Poyo. Lots of <3 included. :D\n"@
}

/// Makes `framebuffer` the one that `writer` draws on; the cursor and the
/// scroll position stay as they are.
pub fn set_default_framebuffer(writer: &mut Writer, framebuffer: Framebuffer)
    ensures
        final(writer).framebuffer == framebuffer,
        final(writer).scroll_y == old(writer).scroll_y,
        final(writer).cursor_x == old(writer).cursor_x,
        final(writer).cursor_y == old(writer).cursor_y,
{
    writer.framebuffer = framebuffer;
}

impl Writer {
    /// The writer's invariant: the framebuffer is consistent, the screen is
    /// at least one line high, and the cursor sits on the character grid.
    pub open spec fn wf(&self) -> bool {
        &&& self.framebuffer.wf()
        &&& self.framebuffer.height >= LINE_SPACING
        &&& self.cursor_x % CHAR_WIDTH == 0
        &&& self.cursor_y % LINE_SPACING == 0
    }

    /// A writer at the top-left corner of `framebuffer`, not yet scrolled.
    pub fn new(framebuffer: Framebuffer) -> (w: Writer)
        ensures
            w.framebuffer == framebuffer,
            w.scroll_y == 0,
            w.cursor_x == 0,
            w.cursor_y == 0,
    {
        Writer { framebuffer, scroll_y: 0, cursor_y: 0, cursor_x: 0 }
    }

    /// Writes the character `c` in `color` at the cursor and moves the
    /// cursor on, scrolling first when the line would fall below the screen.
    /// A backspace erases the cell left of the cursor instead.
    pub fn put_char(&mut self, c: char, color: u32)
        requires
            old(self).wf(),
            old(self)@.room(1),
            printable(c),
        ensures
            final(self).wf(),
            final(self)@ == old(self)@.put_char(c, color),
            (c == ' ' || c == '\n') && !old(self)@.must_scroll() ==> final(self)@.screen == old(self)@.screen,
    {
        let ghost before = self@;
        if self.cursor_y + LINE_SPACING > self.framebuffer.height + self.scroll_y {
            let bg = self.framebuffer.bg_color;
            self.scroll_up(LINE_SPACING, bg);
        }
        let ghost s = self@;
        assert(s == (if before.must_scroll() { before.scrolled(LINE_SPACING as int, before.screen.bg_color) } else { before }));
        if c == BACKSPACE {
            if self.cursor_x > 0 {
                self.cursor_x = self.cursor_x - CHAR_WIDTH;
                let bg = self.framebuffer.bg_color;
                self.framebuffer.draw_rectangle(self.cursor_x, self.cursor_y, CHAR_WIDTH, LINE_SPACING, bg);
            }
            assert(self@ =~= before.put_char(c, color));
            return;
        }
        self.draw_char(self.cursor_x, self.cursor_y, c, color);
        self.cursor_x = self.cursor_x + CHAR_WIDTH;
        if self.cursor_x + CHAR_WIDTH > self.framebuffer.width || c == '\n' {
            self.cursor_x = 0;
            self.cursor_y = self.cursor_y + LINE_SPACING;
        }
        assert(self@ =~= before.put_char(c, color));
    }

    /// Writes `text` in `color`, character by character.
    /// An empty text leaves the writer exactly as it was.
    pub fn print(&mut self, text: &str, color: u32)
        requires
            text@.len() > 0 ==> old(self).wf(),
            text@.len() > 0 ==> old(self)@.room(text@.len() as int),
            all_printable(text@),
        ensures
            text@.len() > 0 ==> final(self).wf(),
            old(self).wf() ==> final(self).wf(),
            final(self)@ == old(self)@.print(text@, color),
            text@.len() == 0 ==> *final(self) == *old(self),
    {
        let ghost before = self@;
        let ghost original = *self;
        for c in it: text.chars()
            invariant
                text@.len() > 0 ==> self.wf(),
                it.seq() == text@,
                self@ == before.print(text@.take(it.index()), color),
                text@.len() > 0 ==> self@.room(text@.len() - it.index()),
                all_printable(text@),
                text@.len() == 0 ==> *self == original,
                original.wf() ==> self.wf(),
        {
            assert(text@.take(it.index() + 1).drop_last() =~= text@.take(it.index()));
            assert(c == text@[it.index()]);
            proof {
                lemma_put_char_room(self@, c, color, text@.len() - it.index() - 1);
            }
            self.put_char(c, color);
        }
        assert(text@.take(text@.len() as int) =~= text@);
        assert(text@.take(0) =~= Seq::<char>::empty());
    }

    /// Writes the characters `text[start..end]` in `color`.
    pub fn print_chars(&mut self, text: &Vec<char>, start: usize, end: usize, color: u32)
        requires
            old(self).wf(),
            start <= end <= text.len(),
            old(self)@.room(end - start),
            all_printable(text@.subrange(start as int, end as int)),
        ensures
            final(self).wf(),
            final(self)@ == old(self)@.print(text@.subrange(start as int, end as int), color),
    {
        let ghost before = self@;
        let mut i = start;
        while i < end
            invariant
                self.wf(),
                start <= i <= end <= text.len(),
                self@ == before.print(text@.subrange(start as int, i as int), color),
                self@.room(end - i),
                all_printable(text@.subrange(start as int, end as int)),
            decreases end - i,
        {
            assert(text@.subrange(start as int, i + 1).drop_last() =~= text@.subrange(start as int, i as int));
            assert(text@[i as int] == text@.subrange(start as int, end as int)[i - start]);
            proof {
                lemma_put_char_room(self@, text@[i as int], color, end - i - 1);
            }
            self.put_char(text[i], color);
            i = i + 1;
        }
    }

    /// Writes `text` in `color` as a line of its own: starting at the left
    /// edge and leaving the cursor at the left edge of the next line.
    pub fn print_string(&mut self, text: &str, color: u32)
        requires
            old(self).framebuffer.wf(),
            old(self).framebuffer.height >= LINE_SPACING,
            old(self).cursor_y % LINE_SPACING == 0,
            old(self)@.at_line_start().room(text@.len() + 1int),
            all_printable(text@),
        ensures
            final(self).wf(),
            final(self)@ == old(self)@.print_string(text@, color),
            final(self).cursor_x == 0,
    {
        let ghost before = self@;
        self.cursor_x = 0;
        proof {
            lemma_print_room(self@, text@, color, 1);
        }
        self.print(text, color);
        self.cursor_x = 0;
        self.cursor_y = self.cursor_y + LINE_SPACING;
        assert(self@ =~= before.print_string(text@, color));
    }

    /// Writes the welcome banner shown once booting has finished.
    pub fn boot_message_loaded(&mut self)
        requires
            old(self).wf(),
            old(self)@.room(welcome_text().len() + 1int),
        ensures
            final(self).wf(),
            final(self)@ == old(self)@.print_string(welcome_text(), TEXT_COLOR),
    {
        let text = "Welcome to GUIneu :D\nMade by Segfault, Jake and Poyo. Lots of <3 included. :D\n";
        proof {
            reveal_strlit("Welcome to GUIneu :D\nMade by Segfault, Jake and Poyo. Lots of <3 included. :D\n");
        }
        self.print_string(text, TEXT_COLOR);
    }

    /// Fills the whole screen with the clear colour.
    pub fn clear_screen(&mut self)
        requires
            old(self).framebuffer.wf(),
        ensures
            final(self).framebuffer.wf(),
            final(self).framebuffer.width == old(self).framebuffer.width,
            final(self).framebuffer.height == old(self).framebuffer.height,
            final(self)@ == old(self)@.screen_cleared(),
    {
        let w = self.framebuffer.width;
        let h = self.framebuffer.height;
        self.framebuffer.draw_rectangle(0, 0, w, h, CLEAR_COLOR);
    }

    /// Moves the cursor to the top-left corner.
    pub fn reset_cursor(&mut self)
        ensures
            final(self).framebuffer == old(self).framebuffer,
            final(self)@ == old(self)@.cursor_reset(),
    {
        self.cursor_x = 0;
        self.cursor_y = 0;
    }

    /// Scrolls the screen up by `lines` rows, filling the rows uncovered at
    /// the bottom with `color`.
    pub(crate) fn scroll_up(&mut self, lines: usize, color: u32)
        requires
            old(self).framebuffer.wf(),
            lines <= old(self).framebuffer.height,
            lines <= old(self).cursor_y,
            old(self).scroll_y + lines <= usize::MAX,
        ensures
            final(self).framebuffer.wf(),
            final(self).framebuffer.width == old(self).framebuffer.width,
            final(self).framebuffer.height == old(self).framebuffer.height,
            final(self).framebuffer.bg_color == old(self).framebuffer.bg_color,
            final(self).cursor_x == old(self).cursor_x,
            final(self)@ == old(self)@.scrolled(lines as int, color),
    {
        let ghost before = self@;
        let ghost img = before.screen.image;
        let width = self.framebuffer.width;
        let height = self.framebuffer.height;
        let mut y: usize = 0;
        while y < height - lines
            invariant
                self.framebuffer.wf(),
                self.framebuffer.width == width,
                self.framebuffer.height == height,
                self.framebuffer.bg_color == before.screen.bg_color,
                self.scroll_y == before.scroll_y,
                self.cursor_x == before.cursor_x,
                self.cursor_y == before.cursor_y,
                width == before.screen.width,
                height == before.screen.height,
                lines <= height,
                y <= height - lines,
                self@.screen.image == Map::new(
                    |p: (int, int)| img.dom().contains(p),
                    |p: (int, int)| if p.1 < y { img[(p.0, p.1 + lines)] } else { img[p] },
                ),
            decreases height - lines - y,
        {
            let mut x: usize = 0;
            while x < width
                invariant
                    self.framebuffer.wf(),
                    self.framebuffer.width == width,
                    self.framebuffer.height == height,
                    self.framebuffer.bg_color == before.screen.bg_color,
                    self.scroll_y == before.scroll_y,
                    self.cursor_x == before.cursor_x,
                    self.cursor_y == before.cursor_y,
                    width == before.screen.width,
                    height == before.screen.height,
                    lines <= height,
                    y < height - lines,
                    x <= width,
                    self@.screen.image == Map::new(
                        |p: (int, int)| img.dom().contains(p),
                        |p: (int, int)| if p.1 < y || (p.1 == y && p.0 < x) { img[(p.0, p.1 + lines)] } else { img[p] },
                    ),
                decreases width - x,
            {
                let ghost cur = self@.screen.image;
                let color_below = self.framebuffer.pixel(x, y + lines);
                assert(color_below == img[(x as int, y + lines)]);
                self.framebuffer.draw_pixel(x, y, color_below);
                assert(self@.screen.image =~= Map::new(
                    |p: (int, int)| img.dom().contains(p),
                    |p: (int, int)| if p.1 < y || (p.1 == y && p.0 < x + 1) { img[(p.0, p.1 + lines)] } else { img[p] },
                ));
                x = x + 1;
            }
            assert(self@.screen.image =~= Map::new(
                |p: (int, int)| img.dom().contains(p),
                |p: (int, int)| if p.1 < y + 1 { img[(p.0, p.1 + lines)] } else { img[p] },
            ));
            y = y + 1;
        }
        self.framebuffer.draw_rectangle(0, height - lines, width, lines, color);
        self.scroll_y = self.scroll_y + lines;
        self.cursor_y = self.cursor_y - lines;
        assert(self@.screen.image =~= shifted_up(before.screen, lines as int, color).image);
        assert(self@ =~= before.scrolled(lines as int, color));
    }

    /// Draws the glyph of `c` in `color` with its top-left corner at `(x, y)`.
    fn draw_char(&mut self, x: usize, y: usize, c: char, color: u32)
        requires
            old(self).framebuffer.wf(),
            glyph_index(c) < GLYPH_COUNT,
            x + CHAR_WIDTH <= usize::MAX,
            y + CHAR_WIDTH <= usize::MAX,
        ensures
            final(self).framebuffer.wf(),
            final(self).framebuffer.width == old(self).framebuffer.width,
            final(self).framebuffer.height == old(self).framebuffer.height,
            final(self).framebuffer.bg_color == old(self).framebuffer.bg_color,
            final(self).scroll_y == old(self).scroll_y,
            final(self).cursor_x == old(self).cursor_x,
            final(self).cursor_y == old(self).cursor_y,
            final(self)@.screen == old(self)@.screen.painted(
                glyph_lit(basic_legacy_glyph(glyph_index(c) as usize), x as int, y as int),
                color,
            ),
            glyph_index(c) <= 32 ==> final(self)@.screen == old(self)@.screen,
    {
        let ghost before = self@;
        let ghost img = before.screen.image;
        let index = (c as u32 % 256) as usize;
        let font = legacy_glyph(index);
        let ghost g = font@;
        let mut r: usize = 0;
        while r < 8
            invariant
                self.framebuffer.wf(),
                self.framebuffer.width == before.screen.width,
                self.framebuffer.height == before.screen.height,
                self.framebuffer.bg_color == before.screen.bg_color,
                self.scroll_y == before.scroll_y,
                self.cursor_x == before.cursor_x,
                self.cursor_y == before.cursor_y,
                x + CHAR_WIDTH <= usize::MAX,
                y + CHAR_WIDTH <= usize::MAX,
                g == font@,
                r <= 8,
                self@.screen.image == paint(img, |a: int, b: int| glyph_lit(g, x as int, y as int)(a, b) && b < y + r, color),
            decreases 8 - r,
        {
            let row = font[r];
            let mut col: usize = 0;
            while col < 8
                invariant
                    self.framebuffer.wf(),
                    self.framebuffer.width == before.screen.width,
                    self.framebuffer.height == before.screen.height,
                    self.framebuffer.bg_color == before.screen.bg_color,
                    self.scroll_y == before.scroll_y,
                    self.cursor_x == before.cursor_x,
                    self.cursor_y == before.cursor_y,
                    x + CHAR_WIDTH <= usize::MAX,
                    y + CHAR_WIDTH <= usize::MAX,
                    g == font@,
                    r < 8,
                    row == g[r as int],
                    col <= 8,
                    self@.screen.image == paint(img, |a: int, b: int| glyph_lit(g, x as int, y as int)(a, b)
                        && (b < y + r || (b == y + r && a < x + col)), color),
                decreases 8 - col,
            {
                let ghost lit = |a: int, b: int| glyph_lit(g, x as int, y as int)(a, b) && (b < y + r || (b == y + r && a < x + col));
                let ghost next = |a: int, b: int| glyph_lit(g, x as int, y as int)(a, b) && (b < y + r || (b == y + r && a < x + col + 1));
                if (row >> col) & 1 != 0 {
                    self.framebuffer.draw_pixel(x + col, y + r, color);
                    proof {
                        assert(glyph_bit(row, col));
                        lemma_paint_twice(img, lit, |a: int, b: int| a == x + col && b == y + r, color);
                        lemma_paint_same_lit(img, |a: int, b: int| lit(a, b) || (a == x + col && b == y + r), next, color);
                    }
                } else {
                    proof {
                        assert(!glyph_bit(row, col));
                        lemma_paint_same_lit(img, lit, next, color);
                    }
                }
                col = col + 1;
            }
            proof {
                lemma_paint_same_lit(img,
                    |a: int, b: int| glyph_lit(g, x as int, y as int)(a, b) && (b < y + r || (b == y + r && a < x + 8)),
                    |a: int, b: int| glyph_lit(g, x as int, y as int)(a, b) && b < y + r + 1, color);
            }
            r = r + 1;
        }
        proof {
            lemma_paint_same_lit(img, |a: int, b: int| glyph_lit(g, x as int, y as int)(a, b) && b < y + 8,
                glyph_lit(g, x as int, y as int), color);
        }
        assert(self@.screen =~= before.screen.painted(glyph_lit(g, x as int, y as int), color));
        proof {
            if glyph_index(c) <= 32 {
                assert forall|a: int, b: int| #[trigger] img.dom().contains((a, b)) implies
                    glyph_lit(g, x as int, y as int)(a, b) == false by {
                    if y <= b < y + 8 && x <= a < x + 8 {
                        assert(g[b - y] == 0u8);
                        lemma_blank_row((a - x) as usize);
                    }
                }
                lemma_paint_same_lit(img, glyph_lit(g, x as int, y as int), |a: int, b: int| false, color);
                assert(paint(img, |a: int, b: int| false, color) =~= img);
                assert(self@.screen.image =~= before.screen.image);
                assert(self@.screen =~= before.screen);
            }
        }
    }
}

} // verus!
