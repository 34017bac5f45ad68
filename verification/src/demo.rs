//! The graphics demo: colour stripes, a picture scrolled off the screen,
//! and a large heart, drawn in steps so that the caller can pause between them.
use vstd::prelude::*;
use crate::boot::{Image, with_stripe, with_centered_image, center_of};
use crate::framebuffer::{FramebufferView, in_rect, paint, lemma_paint_twice, lemma_paint_same_lit};
use crate::text::{Writer, WriterView, LINE_SPACING, CLEAR_COLOR, glyph_bit};

verus! {

/// Side of one heart cell in pixels.
pub const SCALE_FACTOR: usize = 8;

/// How many lines the demo scrolls the picture up by.
pub const DEMO_SCROLL_LINES: usize = 67;

/// The colours of the opening stripes of the demo.
pub open spec fn demo_colors() -> Seq<u32> {
    seq![0xFF0000u32, 0x00FF00u32, 0x0000FFu32, 0xFFFF00u32, 0xFF00FFu32, 0x00FFFFu32]
}

/// The heart, eight rows of eight cells, bit 7 leftmost.
pub open spec fn heart_bitmap() -> Seq<u8> {
    seq![0x66u8, 0xFFu8, 0xFFu8, 0xFFu8, 0x7Eu8, 0x3Cu8, 0x18u8, 0x00u8]
}

/// Colour of heart row `row`: red, with green rising by row.
pub open spec fn heart_color(row: int) -> u32 {
    (0xFF0000 + row * 0x1000) as u32
}

/// The pixels of heart row `row` when the heart's corner is at `(cx, cy)`.
pub open spec fn heart_row_lit(cx: int, cy: int, row: int) -> spec_fn(int, int) -> bool {
    |a: int, b: int|
        cy + row * 8 <= b < cy + row * 8 + 8 && cx <= a < cx + 64 && glyph_bit(
            heart_bitmap()[row],
            (7 - (a - cx) / 8) as usize,
        )
}

/// The screen with the first `rows` rows of the heart drawn at `(cx, cy)`.
pub open spec fn heart_drawn(screen: FramebufferView, cx: int, cy: int, rows: int) -> FramebufferView
    decreases rows,
{
    if rows <= 0 {
        screen
    } else {
        heart_drawn(screen, cx, cy, rows - 1).painted(heart_row_lit(cx, cy, rows - 1), heart_color(rows - 1))
    }
}

/// The writer after scrolling up by `n` lines in the clear colour.
pub open spec fn scrolled_lines(w: WriterView, n: int) -> WriterView
    decreases n,
{
    if n <= 0 {
        w
    } else {
        scrolled_lines(w, n - 1).scrolled(LINE_SPACING as int, CLEAR_COLOR)
    }
}

/// The writer after step `step` of the demo: six stripes, a pause, the
/// centred picture on a cleared screen, the picture scrolled away with the
/// heart drawn centred, and finally a cleared screen with the cursor home.
pub open spec fn demo_step(w: WriterView, image_w: int, image_h: int, pixels: Seq<u32>, step: int) -> WriterView {
    if step < 6 {
        with_stripe(w, demo_colors(), step)
    } else if step == 7 {
        with_centered_image(w.screen_cleared(), image_w, image_h, pixels)
    } else if step == 8 {
        let s = scrolled_lines(w, DEMO_SCROLL_LINES as int);
        let corner = center_of(s.screen, 64, 64);
        WriterView { screen: heart_drawn(s.screen, corner.0, corner.1, 8), ..s }
    } else if step == 9 {
        w.screen_cleared().cursor_reset()
    } else {
        w
    }
}

/// How many timer ticks to pause after step `step` of the demo, or `None`
/// once it is over.
pub open spec fn demo_pause(step: int) -> Option<u32> {
    if step < 6 {
        Some(500)
    } else if step == 6 {
        Some(200)
    } else if step == 7 {
        Some(5000)
    } else if step == 8 {
        Some(3000)
    } else {
        None
    }
}

/// The heart drawn with its corner at `(cx, cy)`: the pixel `(x, y)` of
/// its 64 x 64 area lies in cell row `(y - cy) / 8` and cell column
/// `(x - cx) / 8`; it takes the colour `0xFF0000 + 0x1000 * row` when bit
/// `7 - column` of that row of the bitmap is set. Every other pixel keeps
/// its colour.
pub proof fn lemma_heart_pixels(screen: FramebufferView, cx: int, cy: int, rows: int, x: int, y: int)
    requires
        0 <= rows <= 8,
        screen.image.dom().contains((x, y)),
    ensures
        heart_drawn(screen, cx, cy, rows).image.dom() == screen.image.dom(),
        heart_drawn(screen, cx, cy, rows).image[(x, y)] == (
            if cx <= x < cx + 64 && cy <= y < cy + 8 * rows
                && (heart_bitmap()[(y - cy) / 8] >> ((7 - (x - cx) / 8) as usize)) & 1u8 != 0u8 {
                (0xFF0000 + 0x1000 * ((y - cy) / 8)) as u32
            } else {
                screen.image[(x, y)]
            }),
    decreases rows,
{
    if rows > 0 {
        lemma_heart_pixels(screen, cx, cy, rows - 1, x, y);
        let prev = heart_drawn(screen, cx, cy, rows - 1);
        assert(prev.painted(heart_row_lit(cx, cy, rows - 1), heart_color(rows - 1)).image.dom() =~= prev.image.dom());
        if cy + 8 * (rows - 1) <= y < cy + 8 * rows {
            assert((y - cy) / 8 == rows - 1);
        } else if cy <= y < cy + 8 * (rows - 1) {
            assert((y - cy) / 8 < rows - 1);
        }
    } else {
        assert(heart_drawn(screen, cx, cy, 0) == screen);
    }
}

/// The demo pauses 500 ticks after each of its six stripes, 200 after the
/// step that follows them, 5000 once the picture is shown and 3000 once the
/// heart is drawn, and is over after step 9.
pub proof fn lemma_demo_pauses(step: int)
    requires
        step >= 0,
    ensures
        step < 6 ==> demo_pause(step) == Some(500u32),
        step == 6 ==> demo_pause(step) == Some(200u32),
        step == 7 ==> demo_pause(step) == Some(5000u32),
        step == 8 ==> demo_pause(step) == Some(3000u32),
        step >= 9 ==> demo_pause(step) is None,
{
}

/// What step 8 of the demo needs: the cursor and the picture's row stand
/// low enough to move up by all the scrolled lines, and the scroll position
/// can grow by them.
pub open spec fn demo_scroll_fits(w: WriterView, image_w: int, image_h: int) -> bool {
    let lines = DEMO_SCROLL_LINES * LINE_SPACING;
    &&& w.cursor_y >= lines
    &&& w.scroll_y + lines <= usize::MAX
    &&& center_of(w.screen, image_w, image_h).1 >= lines
}

/// The pixel `d` columns right of the heart's edge lies in cell column
/// `col` exactly when it lies in that column's span of eight pixels.
proof fn lemma_cell_column(d: int, col: int)
    requires
        0 <= col,
    ensures
        d >= 0 ==> ((d / 8 == col) <==> (8 * col <= d < 8 * col + 8)),
        d >= 0 ==> ((d / 8 < col + 1) <==> (d / 8 < col || d / 8 == col)),
{
}

impl Writer {
    /// Performs step `step` of the demo and returns how many timer ticks to
    /// pause before the next step, or `None` once the demo is over.
    pub fn demo(&mut self, image: &Image, step: usize) -> (pause: Option<u32>)
        requires
            old(self).wf(),
            image.wf(),
            step == 8 ==> demo_scroll_fits(old(self)@, image.width as int, image.height as int),
        ensures
            final(self).wf(),
            final(self)@ == demo_step(old(self)@, image.width as int, image.height as int, image.pixels@, step as int),
            pause == demo_pause(step as int),
    {
        let (x, y) = self.framebuffer.get_center_xy(image.width, image.height);
        if step < 6 {
            let colors: Vec<u32> = vec![0xFF0000u32, 0x00FF00u32, 0x0000FFu32, 0xFFFF00u32, 0xFF00FFu32, 0x00FFFFu32];
            assert(colors@ =~= demo_colors());
            self.fill_screen(colors.as_slice(), step);
            Some(500)
        } else if step == 6 {
            Some(200)
        } else if step == 7 {
            self.clear_screen();
            self.framebuffer.draw_image(x, y, image.width, image.height, image.pixels.as_slice());
            Some(5000)
        } else if step == 8 {
            let ghost w0 = self@;
            let lines_to_scroll = DEMO_SCROLL_LINES;
            let mut y = y;
            let mut i: usize = 0;
            while i < lines_to_scroll
                invariant
                    i <= lines_to_scroll == DEMO_SCROLL_LINES,
                    self.wf(),
                    self@ == scrolled_lines(w0, i as int),
                    self.cursor_y + LINE_SPACING * i == w0.cursor_y,
                    self.scroll_y == w0.scroll_y + LINE_SPACING * i,
                    w0.cursor_y >= DEMO_SCROLL_LINES * LINE_SPACING,
                    w0.scroll_y + DEMO_SCROLL_LINES * LINE_SPACING <= usize::MAX,
                    y + LINE_SPACING * i >= DEMO_SCROLL_LINES * LINE_SPACING,
                decreases lines_to_scroll - i,
            {
                self.scroll_up(LINE_SPACING, CLEAR_COLOR);
                y = y - LINE_SPACING;
                i = i + 1;
            }
            self.draw_heart();
            Some(3000)
        } else if step == 9 {
            self.clear_screen();
            self.reset_cursor();
            None
        } else {
            None
        }
    }

    /// Draws the heart, each cell a square of `SCALE_FACTOR` pixels, centred
    /// on the screen.
    fn draw_heart(&mut self)
        requires
            old(self).wf(),
        ensures
            final(self).wf(),
            ({
                let corner = center_of(old(self)@.screen, 64, 64);
                final(self)@ == (WriterView { screen: heart_drawn(old(self)@.screen, corner.0, corner.1, 8), ..old(self)@ })
            }),
    {
        let ghost w0 = self@;
        let bitmap: [u8; 8] = [0x66, 0xFF, 0xFF, 0xFF, 0x7E, 0x3C, 0x18, 0x00];
        assert(bitmap@ =~= heart_bitmap());
        let (center_x, center_y) = self.framebuffer.get_center_xy(8 * SCALE_FACTOR, 8 * SCALE_FACTOR);
        let ghost cx = center_x as int;
        let ghost cy = center_y as int;
        let mut row: usize = 0;
        while row < 8
            invariant
                self.wf(),
                self.framebuffer.width == w0.screen.width,
                self.framebuffer.height == w0.screen.height,
                row <= 8,
                bitmap@ == heart_bitmap(),
                (center_x as int, center_y as int) == center_of(w0.screen, 64, 64),
                cx == center_x,
                cy == center_y,
                self@ == (WriterView { screen: heart_drawn(w0.screen, cx, cy, row as int), ..w0 }),
            decreases 8 - row,
        {
            let byte = bitmap[row];
            let r32 = row as u32;
            let scaled: u32 = r32 * 16;
            let color = 0xFF0000u32 | (scaled << 8u32);
            assert(color == 0xFF0000u32 + r32 * 4096) by (bit_vector)
                requires
                    r32 < 8,
                    scaled == r32 * 16,
                    color == 0xFF0000u32 | (scaled << 8u32),
            ;
            let ghost start = self@.screen;
            let ghost lit = heart_row_lit(cx, cy, row as int);
            proof {
                lemma_paint_same_lit(start.image, |a: int, b: int| lit(a, b) && (a - cx) / 8 < 0, |a: int, b: int| false, color);
                assert(start.image =~= paint(start.image, |a: int, b: int| false, color));
                assert(self@.screen =~= start.painted(|a: int, b: int| lit(a, b) && (a - cx) / 8 < 0, color));
            }
            let mut col: usize = 0;
            while col < 8
                invariant
                    self.wf(),
                    self.framebuffer.width == w0.screen.width,
                    self.framebuffer.height == w0.screen.height,
                    row < 8,
                    col <= 8,
                    bitmap@ == heart_bitmap(),
                    byte == heart_bitmap()[row as int],
                    color == heart_color(row as int),
                    (center_x as int, center_y as int) == center_of(w0.screen, 64, 64),
                    cx == center_x,
                    cy == center_y,
                    lit == heart_row_lit(cx, cy, row as int),
                    start == heart_drawn(w0.screen, cx, cy, row as int),
                    self@ == (WriterView {
                        screen: start.painted(|a: int, b: int| lit(a, b) && (a - cx) / 8 < col, color),
                        ..w0
                    }),
                decreases 8 - col,
            {
                let ghost before = self@.screen;
                let ghost done = |a: int, b: int| lit(a, b) && (a - cx) / 8 < col;
                let ghost next = |a: int, b: int| lit(a, b) && (a - cx) / 8 < col + 1;
                if (byte >> (7 - col)) & 1 != 0 {
                    assert(glyph_bit(byte, (7 - col) as usize));
                    let rx = center_x + col * SCALE_FACTOR;
                    let ry = center_y + row * SCALE_FACTOR;
                    self.framebuffer.draw_rectangle(rx, ry, SCALE_FACTOR, SCALE_FACTOR, color);
                    proof {
                        let rect = |a: int, b: int| in_rect(rx as int, ry as int, 8, 8, a, b);
                        assert(rx == cx + 8 * col);
                        assert(ry == cy + 8 * row);
                        assert forall|a: int, b: int| #[trigger] start.image.dom().contains((a, b)) implies
                            (done(a, b) || rect(a, b)) == next(a, b) by {
                            lemma_cell_column(a - cx, col as int);
                            if rect(a, b) {
                                assert(8 * col <= a - cx < 8 * col + 8);
                                assert((a - cx) / 8 == col);
                                assert((7 - (a - cx) / 8) as usize == (7 - col) as usize);
                                assert(lit(a, b));
                            }
                            if next(a, b) && !done(a, b) {
                                assert((a - cx) / 8 == col);
                                assert(rect(a, b));
                            }
                        }
                        lemma_paint_twice(start.image, done, rect, color);
                        lemma_paint_same_lit(start.image, |a: int, b: int| done(a, b) || rect(a, b), next, color);
                        assert(self@.screen =~= start.painted(next, color));
                    }
                } else {
                    proof {
                        assert(!glyph_bit(byte, (7 - col) as usize));
                        assert forall|a: int, b: int| #[trigger] start.image.dom().contains((a, b)) implies
                            done(a, b) == next(a, b) by {
                            lemma_cell_column(a - cx, col as int);
                            if next(a, b) && !done(a, b) {
                                assert((a - cx) / 8 == col);
                                assert((7 - (a - cx) / 8) as usize == (7 - col) as usize);
                                assert(!lit(a, b));
                            }
                        }
                        lemma_paint_same_lit(start.image, done, next, color);
                    }
                }
                col = col + 1;
            }
            proof {
                lemma_paint_same_lit(start.image, |a: int, b: int| lit(a, b) && (a - cx) / 8 < 8, lit, color);
                assert(self@.screen =~= heart_drawn(w0.screen, cx, cy, row + 1));
            }
            row = row + 1;
        }
    }
}

} // verus!
