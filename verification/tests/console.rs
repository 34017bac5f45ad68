use guineu::clear::clear;
use guineu::framebuffer::Framebuffer;
use guineu::text::{set_default_framebuffer, Writer, CLEAR_COLOR, TEXT_COLOR};

fn writer(width: usize, height: usize) -> Writer {
    Writer::new(Framebuffer::new(width, height, 0, 0))
}

fn same_state(a: &Writer, b: &Writer) -> bool {
    a.framebuffer.pixels == b.framebuffer.pixels
        && a.cursor_x == b.cursor_x
        && a.cursor_y == b.cursor_y
        && a.scroll_y == b.scroll_y
}

fn glyph_pixels(w: &Writer, x0: usize, y0: usize, c: char) -> bool {
    let glyph = font8x8::legacy::BASIC_LEGACY[c as usize];
    for r in 0..8 {
        for col in 0..8 {
            let lit = (glyph[r] >> col) & 1 != 0;
            let p = w.framebuffer.pixel(x0 + col, y0 + r);
            if lit != (p == TEXT_COLOR) {
                return false;
            }
        }
    }
    true
}

#[test]
fn framebuffer_new_fills_every_pixel() {
    let fb = Framebuffer::new(5, 3, 7, 42);
    assert_eq!(fb.pixels.len(), 15);
    assert!(fb.pixels.iter().all(|&p| p == 42));
    assert_eq!(fb.bg_color, 7);
}

#[test]
fn draw_pixel_sets_one_pixel_and_ignores_off_screen() {
    let mut fb = Framebuffer::new(4, 4, 0, 0);
    fb.draw_pixel(2, 1, 9);
    assert_eq!(fb.pixel(2, 1), 9);
    assert_eq!(fb.pixels.iter().filter(|&&p| p == 9).count(), 1);
    fb.draw_pixel(4, 0, 5);
    fb.draw_pixel(0, 4, 5);
    assert!(fb.pixels.iter().all(|&p| p != 5));
}

#[test]
fn draw_rectangle_is_clipped_to_the_screen() {
    let mut fb = Framebuffer::new(4, 4, 0, 0);
    fb.draw_rectangle(2, 3, 10, 10, 1);
    for y in 0..4 {
        for x in 0..4 {
            assert_eq!(fb.pixel(x, y), if x >= 2 && y >= 3 { 1 } else { 0 });
        }
    }
    fb.draw_rectangle(usize::MAX, usize::MAX, usize::MAX, usize::MAX, 2);
    assert!(fb.pixels.iter().all(|&p| p != 2));
}

#[test]
fn draw_image_copies_rows() {
    let mut fb = Framebuffer::new(4, 3, 0, 0);
    fb.draw_image(1, 1, 2, 2, &[1, 2, 3, 4]);
    assert_eq!(fb.pixel(1, 1), 1);
    assert_eq!(fb.pixel(2, 1), 2);
    assert_eq!(fb.pixel(1, 2), 3);
    assert_eq!(fb.pixel(2, 2), 4);
    assert_eq!(fb.pixel(0, 0), 0);
    fb.draw_image(3, 2, 2, 2, &[5, 6, 7, 8]);
    assert_eq!(fb.pixel(3, 2), 5);
}

#[test]
fn center_of_a_picture() {
    let fb = Framebuffer::new(100, 50, 0, 0);
    assert_eq!(fb.get_center_xy(20, 10), (40, 20));
    assert_eq!(fb.get_center_xy(21, 11), (39, 19));
    assert_eq!(fb.get_center_xy(200, 60), (0, 0));
}

#[test]
fn print_draws_glyphs_and_advances() {
    let mut w = writer(64, 24);
    w.print("Hi", TEXT_COLOR);
    assert_eq!((w.cursor_x, w.cursor_y), (16, 0));
    assert!(glyph_pixels(&w, 0, 0, 'H'));
    assert!(glyph_pixels(&w, 8, 0, 'i'));
    assert!(w.framebuffer.pixels.iter().any(|&p| p == TEXT_COLOR));
}

#[test]
fn print_wraps_before_the_right_edge() {
    let mut w = writer(16, 24);
    w.print("ab", TEXT_COLOR);
    assert_eq!((w.cursor_x, w.cursor_y), (0, 12));
    w.print("c", TEXT_COLOR);
    assert_eq!((w.cursor_x, w.cursor_y), (8, 12));
}

#[test]
fn newline_and_space_draw_nothing() {
    let mut w = writer(64, 24);
    w.print(" \n", TEXT_COLOR);
    assert_eq!((w.cursor_x, w.cursor_y), (0, 12));
    assert!(w.framebuffer.pixels.iter().all(|&p| p == 0));
}

#[test]
fn backspace_erases_the_previous_cell() {
    let mut w = writer(64, 24);
    w.framebuffer.bg_color = 3;
    w.print("W", TEXT_COLOR);
    w.print("\x08", TEXT_COLOR);
    assert_eq!(w.cursor_x, 0);
    for y in 0..12 {
        for x in 0..8 {
            assert_eq!(w.framebuffer.pixel(x, y), 3);
        }
    }
    w.print("\x08", TEXT_COLOR);
    assert_eq!(w.cursor_x, 0);
}

#[test]
fn writing_past_the_bottom_scrolls_up() {
    let mut w = writer(16, 24);
    w.framebuffer.bg_color = 5;
    w.print("A\nB\n", TEXT_COLOR);
    assert_eq!((w.cursor_y, w.scroll_y), (24, 0));
    w.print("C", TEXT_COLOR);
    assert_eq!(w.scroll_y, 12);
    assert_eq!(w.cursor_y, 12);
    assert!(glyph_pixels(&w, 0, 0, 'B'));
    assert!(glyph_pixels(&w, 0, 12, 'C'));
}

#[test]
fn printing_in_pieces_equals_printing_at_once() {
    let mut a = writer(32, 24);
    let mut b = writer(32, 24);
    a.print("hello, world\nbye", TEXT_COLOR);
    b.print("hello, ", TEXT_COLOR);
    b.print("world\n", TEXT_COLOR);
    b.print("bye", TEXT_COLOR);
    assert!(same_state(&a, &b));
}

#[test]
fn print_string_ends_at_the_start_of_the_next_line() {
    let mut w = writer(64, 48);
    w.cursor_x = 16;
    w.print_string("abc", TEXT_COLOR);
    assert_eq!((w.cursor_x, w.cursor_y), (0, 12));
    assert!(glyph_pixels(&w, 0, 0, 'a'));
}

#[test]
fn boot_banner_moves_down_three_lines() {
    let mut w = writer(1024, 120);
    w.boot_message_loaded();
    assert_eq!((w.cursor_x, w.cursor_y), (0, 36));
}

#[test]
fn clear_fills_the_screen_and_homes_the_cursor() {
    let mut w = writer(32, 24);
    w.print("xyz", TEXT_COLOR);
    clear(&mut w);
    assert!(w.framebuffer.pixels.iter().all(|&p| p == CLEAR_COLOR));
    assert_eq!((w.cursor_x, w.cursor_y), (0, 0));
}

#[test]
fn reset_cursor_keeps_the_screen() {
    let mut w = writer(32, 24);
    w.print("xy\nz", TEXT_COLOR);
    let pixels = w.framebuffer.pixels.clone();
    w.reset_cursor();
    assert_eq!((w.cursor_x, w.cursor_y), (0, 0));
    assert_eq!(w.framebuffer.pixels, pixels);
}

#[test]
fn set_default_framebuffer_swaps_the_screen_only() {
    let mut w = writer(32, 24);
    w.print("q\n", TEXT_COLOR);
    set_default_framebuffer(&mut w, Framebuffer::new(8, 12, 1, 2));
    assert_eq!(w.framebuffer.width, 8);
    assert_eq!(w.framebuffer.pixels, vec![2; 96]);
    assert_eq!((w.cursor_x, w.cursor_y), (0, 12));
}

#[test]
fn printing_nothing_changes_nothing_even_without_a_screen() {
    let mut w = writer(0, 0);
    w.cursor_x = 3;
    w.cursor_y = 5;
    w.print("", TEXT_COLOR);
    assert_eq!((w.cursor_x, w.cursor_y, w.scroll_y), (3, 5, 0));
    assert!(w.framebuffer.pixels.is_empty());
}

#[test]
fn print_string_starts_from_any_column() {
    let mut w = writer(64, 48);
    w.cursor_x = 13;
    w.print_string("ab", TEXT_COLOR);
    assert_eq!((w.cursor_x, w.cursor_y), (0, 12));
    assert!(glyph_pixels(&w, 0, 0, 'a'));
}

#[test]
fn cursor_and_scroll_stay_on_the_grid() {
    let mut w = writer(24, 36);
    w.print("a long line of text\nthat wraps\x08 and scrolls\n\nagain", TEXT_COLOR);
    assert_eq!(w.cursor_x % 8, 0);
    assert!(w.cursor_x + 8 <= 24);
    assert_eq!(w.cursor_y % 12, 0);
    assert_eq!(w.scroll_y % 12, 0);
    assert!(w.scroll_y > 0);
}
