use guineu::framebuffer::Framebuffer;
use guineu::input::{get_user_input, input_handler, KeyboardInput};
use guineu::text::{Writer, TEXT_COLOR};

fn writer() -> Writer {
    Writer::new(Framebuffer::new(320, 240, 0, 0))
}

fn keys(s: &str) -> Vec<char> {
    s.chars().collect()
}

#[test]
fn a_line_ends_at_enter() {
    let mut w = writer();
    let mut buffer = vec![0u8; 8];
    let n = get_user_input(&mut buffer, &keys("hi\nignored"), &mut w);
    assert_eq!(n, 2);
    assert_eq!(buffer, vec![b'h', b'i', 0, 0, 0, 0, 0, 0]);
    let mut echo = writer();
    echo.print("hi\n", TEXT_COLOR);
    assert_eq!(w.framebuffer.pixels, echo.framebuffer.pixels);
    assert_eq!((w.cursor_x, w.cursor_y), (0, 12));
}

#[test]
fn a_line_ends_when_the_buffer_is_full() {
    let mut w = writer();
    let mut buffer = vec![0u8; 3];
    let n = get_user_input(&mut buffer, &keys("abcdef"), &mut w);
    assert_eq!(n, 3);
    assert_eq!(buffer, b"abc".to_vec());
    assert_eq!(w.cursor_x, 24);
}

#[test]
fn keys_running_out_end_the_line() {
    let mut w = writer();
    let mut buffer = vec![9u8; 4];
    let n = get_user_input(&mut buffer, &keys("ok"), &mut w);
    assert_eq!(n, 2);
    assert_eq!(buffer, vec![b'o', b'k', 9, 9]);
}

#[test]
fn an_empty_buffer_takes_nothing() {
    let mut w = writer();
    let mut buffer: Vec<u8> = Vec::new();
    assert_eq!(get_user_input(&mut buffer, &keys("abc\n"), &mut w), 0);
    assert_eq!((w.cursor_x, w.cursor_y), (0, 0));
}

#[test]
fn backspace_is_stored_and_erases_on_screen() {
    let mut w = writer();
    let mut buffer = vec![0u8; 4];
    let n = get_user_input(&mut buffer, &keys("a\x08b\n"), &mut w);
    assert_eq!(n, 3);
    assert_eq!(&buffer[..3], &[b'a', 8, b'b']);
    assert_eq!((w.cursor_x, w.cursor_y), (0, 12));
    let mut echo = writer();
    echo.print("b
", TEXT_COLOR);
    assert_eq!(w.framebuffer.pixels, echo.framebuffer.pixels);
}

#[test]
fn handler_stores_the_low_byte_of_a_key() {
    let mut w = writer();
    let mut input = KeyboardInput { buffer: vec![0u8; 2], index: 0, is_newline: false };
    input_handler(&mut input, &mut w, '\u{141}');
    assert_eq!(input.buffer[0], 0x41);
    assert_eq!(input.index, 1);
    input_handler(&mut input, &mut w, '\n');
    assert!(input.is_newline);
    assert_eq!(input.index, 1);
}

#[test]
fn handler_without_buffer_does_nothing() {
    let mut w = writer();
    let mut input = KeyboardInput { buffer: Vec::new(), index: 0, is_newline: false };
    input_handler(&mut input, &mut w, 'x');
    assert_eq!(w.cursor_x, 0);
    assert!(!input.is_newline);
}

#[test]
fn without_a_buffer_any_key_is_ignored() {
    let mut w = Writer::new(Framebuffer::new(0, 0, 0, 0));
    let mut input = KeyboardInput { buffer: Vec::new(), index: 0, is_newline: false };
    input_handler(&mut input, &mut w, '\u{20ac}');
    assert_eq!((input.index, input.is_newline), (0, false));
    assert_eq!((w.cursor_x, w.cursor_y), (0, 0));
}

#[test]
fn handler_moves_the_index_by_at_most_one() {
    let mut w = writer();
    let mut input = KeyboardInput { buffer: vec![7u8; 2], index: 1, is_newline: false };
    input_handler(&mut input, &mut w, 'z');
    assert_eq!(input.index, 2);
    assert_eq!(input.buffer, vec![7, b'z']);
    input_handler(&mut input, &mut w, 'y');
    assert_eq!(input.index, 2);
    assert_eq!(input.buffer, vec![7, b'z']);
}

#[test]
fn keys_after_enter_are_not_taken() {
    let mut w = writer();
    let mut buffer = vec![0u8; 8];
    let n = get_user_input(&mut buffer, &keys("ok\n\u{20ac}\u{20ac}"), &mut w);
    assert_eq!(n, 2);
    assert_eq!(&buffer[..2], b"ok");
}
