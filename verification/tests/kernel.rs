use guineu::allocator::{allocate, init_alloc, BumpAllocator};
use guineu::boot::Image;
use guineu::framebuffer::Framebuffer;
use guineu::tab_handler::TabHandler;
use guineu::text::{Writer, CLEAR_COLOR, TEXT_COLOR};

fn same_state(a: &Writer, b: &Writer) -> bool {
    a.framebuffer.pixels == b.framebuffer.pixels && a.cursor_x == b.cursor_x && a.cursor_y == b.cursor_y
}

#[test]
fn allocations_follow_one_another() {
    let mut a = BumpAllocator::new();
    init_alloc(&mut a, 0x1000);
    assert_eq!(allocate(&mut a, 16), 0x1000);
    assert_eq!(allocate(&mut a, 0), 0x1010);
    assert_eq!(allocate(&mut a, 8), 0x1010);
    assert_eq!(a.placement_ptr, Some(0x1018));
}

#[test]
fn tabs_switch_in_turn_and_announce_themselves() {
    let mut tabs = TabHandler::new();
    assert_eq!(tabs.current_tab(), 0);
    let mut w = Writer::new(Framebuffer::new(320, 120, 0, 0));
    tabs.switch_tab(&mut w);
    assert_eq!(tabs.current_tab(), 1);
    let mut expected = Writer::new(Framebuffer::new(320, 120, 0, 0));
    expected.print("Switched to Tab 2\n", TEXT_COLOR);
    assert!(same_state(&w, &expected));
    tabs.handle_tab(&mut w);
    expected.print("Tab 2\n", TEXT_COLOR);
    assert!(same_state(&w, &expected));
    tabs.switch_tab(&mut w);
    assert_eq!(tabs.current_tab(), 0);
    expected.print("Switched to Tab 1\n", TEXT_COLOR);
    assert!(same_state(&w, &expected));
}

#[test]
fn fill_screen_draws_one_stripe() {
    let mut w = Writer::new(Framebuffer::new(4, 12, 0, 0));
    w.fill_screen(&[1, 2, 3], 1);
    for y in 0..12 {
        let expected = if (4..8).contains(&y) { 2 } else { 0 };
        for x in 0..4 {
            assert_eq!(w.framebuffer.pixel(x, y), expected);
        }
    }
}

#[test]
fn boot_splash_runs_in_ten_steps() {
    let logo = Image { width: 2, height: 2, pixels: vec![7, 7, 7, 7] };
    let mut w = Writer::new(Framebuffer::new(300, 60, 0, 0));
    let mut pauses = Vec::new();
    let mut step = 0;
    while let Some(p) = w.boot_message(&logo, step) {
        pauses.push(p);
        if step == 6 {
            assert!(w.framebuffer.pixels.iter().all(|&p| p == 0xdf7126));
        }
        if step == 7 {
            assert_eq!(w.framebuffer.pixel(149, 29), 7);
            assert_eq!(w.framebuffer.pixel(150, 30), 7);
            assert_eq!(w.framebuffer.pixel(151, 30), 0xdf7126);
        }
        step += 1;
    }
    assert_eq!(pauses, vec![500, 500, 500, 500, 500, 500, 500, 1000, 1000]);
    assert_eq!((w.cursor_x, w.cursor_y), (0, 12));
    let mut expected = Writer::new(Framebuffer::new(300, 60, 0, CLEAR_COLOR));
    expected.print_string("GUIneu Booting Up!", TEXT_COLOR);
    assert!(same_state(&w, &expected));
}

#[test]
fn boot_stripes_split_the_screen() {
    let logo = Image { width: 0, height: 0, pixels: vec![] };
    let mut w = Writer::new(Framebuffer::new(2, 12, 0, 0));
    for step in 0..6 {
        w.boot_message(&logo, step);
    }
    let colors = [0x050505, 0x111111, 0x121212, 0x222222, 0x232323, 0x333333];
    for y in 0..12 {
        assert_eq!(w.framebuffer.pixel(0, y), colors[y / 2]);
    }
}

#[test]
fn demo_scrolls_the_picture_away_and_draws_the_heart() {
    let height = 1800;
    let picture = Image { width: 4, height: 4, pixels: vec![9; 16] };
    let mut w = Writer::new(Framebuffer::new(100, height, 0, 0));
    w.cursor_y = 804;
    let mut pauses = Vec::new();
    let mut step = 0;
    while let Some(p) = w.demo(&picture, step) {
        pauses.push(p);
        if step == 7 {
            assert_eq!(w.framebuffer.pixel(48, 898), 9);
            assert_eq!(w.framebuffer.pixel(0, 0), CLEAR_COLOR);
        }
        if step == 8 {
            assert_eq!(w.scroll_y, 804);
            assert_eq!(w.cursor_y, 0);
            assert_eq!(w.framebuffer.pixel(48, 94), 9);
            let (cx, cy) = (18, 868);
            // Row 0 of the heart is 0b01100110: cell 1 lit, cell 0 dark.
            assert_eq!(w.framebuffer.pixel(cx + 8, cy), 0xFF0000);
            assert_eq!(w.framebuffer.pixel(cx, cy), CLEAR_COLOR);
            // Row 3 is fully lit, in its own colour.
            assert_eq!(w.framebuffer.pixel(cx, cy + 24), 0xFF3000);
            assert_eq!(w.framebuffer.pixel(cx + 63, cy + 31), 0xFF3000);
            // Row 7 is dark.
            assert_eq!(w.framebuffer.pixel(cx + 24, cy + 56), CLEAR_COLOR);
        }
        step += 1;
    }
    assert_eq!(pauses, vec![500, 500, 500, 500, 500, 500, 200, 5000, 3000]);
    assert!(w.framebuffer.pixels.iter().all(|&p| p == CLEAR_COLOR));
    assert_eq!((w.cursor_x, w.cursor_y), (0, 0));
}

fn picture_bytes(width: u32, height: u32, pixels: &[u32], extra: usize) -> Vec<u8> {
    let mut bytes = Vec::new();
    bytes.extend_from_slice(&width.to_le_bytes());
    bytes.extend_from_slice(&height.to_le_bytes());
    for p in pixels {
        bytes.extend_from_slice(&p.to_le_bytes());
    }
    bytes.extend(std::iter::repeat(0xAB).take(extra));
    bytes
}

#[test]
fn pictures_are_read_from_bytes() {
    let bytes = picture_bytes(2, 1, &[0x11223344, 0xFF00FF00], 3);
    let image = Image::from_bytes(&bytes).unwrap();
    assert_eq!((image.width, image.height), (2, 1));
    assert_eq!(image.pixels, vec![0x11223344, 0xFF00FF00]);
}

#[test]
fn short_or_huge_pictures_are_refused() {
    assert!(Image::from_bytes(&[1, 0, 0, 0, 1]).is_none());
    assert!(Image::from_bytes(&picture_bytes(2, 2, &[1, 2, 3], 0)).is_none());
    assert!(Image::from_bytes(&picture_bytes(u32::MAX, u32::MAX, &[], 0)).is_none());
    let empty = Image::from_bytes(&picture_bytes(0, 7, &[], 0)).unwrap();
    assert_eq!((empty.width, empty.height, empty.pixels.len()), (0, 7, 0));
}

#[test]
fn two_switches_restore_the_tab_on_any_screen() {
    let mut tabs = TabHandler::new();
    let mut w = Writer::new(Framebuffer::new(16, 12, 0, 0));
    tabs.switch_tab(&mut w);
    tabs.switch_tab(&mut w);
    assert_eq!(tabs.current_tab(), 0);
}
