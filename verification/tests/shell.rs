use guineu::chars::{chars_of, is_whitespace, trim_range};
use guineu::framebuffer::Framebuffer;
use guineu::pathtracer::find_command;
use guineu::shell::{announce_file, decimal_digits, run_line, show_file, ShellAction};
use guineu::text::{Writer, CLEAR_COLOR, TEXT_COLOR};

fn writer() -> Writer {
    Writer::new(Framebuffer::new(320, 240, 0, 0))
}

fn printed(text: &str) -> Writer {
    let mut w = writer();
    w.print(text, TEXT_COLOR);
    w
}

fn same_state(a: &Writer, b: &Writer) -> bool {
    a.framebuffer.pixels == b.framebuffer.pixels
        && a.cursor_x == b.cursor_x
        && a.cursor_y == b.cursor_y
        && a.scroll_y == b.scroll_y
}

fn string_of(v: &[char]) -> String {
    v.iter().collect()
}

#[test]
fn whitespace_matches_the_unicode_property() {
    for v in 0u32..0x11_0000 {
        if let Some(c) = char::from_u32(v) {
            assert_eq!(is_whitespace(c), c.is_whitespace(), "{:x}", v);
        }
    }
}

#[test]
fn trim_range_matches_str_trim() {
    for s in ["  a b  ", "", "   ", "x", "\t\u{3000}y z\n", "q\u{85}"] {
        let v = chars_of(s);
        let (a, b) = trim_range(&v, 0, v.len());
        assert_eq!(string_of(&v[a..b]), s.trim());
    }
}

#[test]
fn decimal_digits_of_numbers() {
    assert_eq!(string_of(&decimal_digits(0)), "0");
    assert_eq!(string_of(&decimal_digits(7)), "7");
    assert_eq!(string_of(&decimal_digits(1234)), "1234");
    assert_eq!(string_of(&decimal_digits(usize::MAX)), usize::MAX.to_string());
}

#[test]
fn echo_writes_its_arguments() {
    let mut w = writer();
    find_command(&mut w, "echo   hello there");
    assert!(same_state(&w, &printed("hello there\n")));
}

#[test]
fn echo_without_arguments_writes_an_empty_line() {
    let mut w = writer();
    find_command(&mut w, "echo");
    assert!(same_state(&w, &printed("\n")));
}

#[test]
fn help_lists_the_commands() {
    let mut w = writer();
    find_command(&mut w, "help me");
    assert!(same_state(&w, &printed("Available commands: echo\n")));
}

#[test]
fn unknown_commands_are_reported() {
    let mut w = writer();
    find_command(&mut w, "echoes hi");
    assert!(same_state(&w, &printed("Unknown command!\n")));
}

#[test]
fn clear_command_clears_the_screen() {
    let mut w = printed("some text\nmore");
    find_command(&mut w, "clear");
    assert!(w.framebuffer.pixels.iter().all(|&p| p == CLEAR_COLOR));
    assert_eq!((w.cursor_x, w.cursor_y), (0, 0));
}

#[test]
fn blank_lines_are_ignored() {
    let mut w = writer();
    assert!(matches!(run_line(&mut w, "   \t "), ShellAction::Continue));
    assert!(same_state(&w, &writer()));
}

#[test]
fn cat_with_a_name_asks_for_the_file() {
    let mut w = writer();
    match run_line(&mut w, "  cat   ./etc/hello.txt  ") {
        ShellAction::Cat(name) => assert_eq!(string_of(&name), "./etc/hello.txt"),
        _ => panic!("expected cat"),
    }
    assert!(same_state(&w, &printed("Unknown command!\n")));
}

#[test]
fn cat_without_a_name_complains() {
    let mut w = writer();
    assert!(matches!(run_line(&mut w, "cat"), ShellAction::Continue));
    assert!(same_state(&w, &printed("Unknown command!\ncat: missing file name\n")));
}

#[test]
fn exit_says_goodbye() {
    let mut w = writer();
    assert!(matches!(run_line(&mut w, "exit"), ShellAction::Exit));
    assert!(same_state(&w, &printed("Unknown command!\nExiting the GUIneu kernel-mode debug shell...\n")));
}

#[test]
fn demo_asks_for_the_demo() {
    let mut w = writer();
    assert!(matches!(run_line(&mut w, "demo now"), ShellAction::Demo));
    assert!(same_state(&w, &printed("Unknown command!\n")));
}

#[test]
fn echo_line_is_run_and_continues() {
    let mut w = writer();
    assert!(matches!(run_line(&mut w, " echo hi "), ShellAction::Continue));
    assert!(same_state(&w, &printed("hi\n")));
}

#[test]
fn show_file_writes_contents_or_complains() {
    let mut w = writer();
    show_file(&mut w, &chars_of("./a"), Some("data"));
    assert!(same_state(&w, &printed("data\n")));
    let mut w = writer();
    show_file(&mut w, &chars_of("./b"), None);
    assert!(same_state(
        &w,
        &printed("cat: ./b: No such file or directory. Note that paths must start with ./\n")
    ));
}

#[test]
fn announce_file_formats_name_and_size() {
    let mut w = writer();
    announce_file(&mut w, "./etc/hello.txt", 1305);
    let expected = format!("The file {}'s length is {}, and the contents are:\n\n", "./etc/hello.txt", 1305);
    assert!(same_state(&w, &printed(&expected)));
}

#[test]
fn extra_spaces_before_the_arguments_change_nothing() {
    for word in ["echo", "help", "nope"] {
        let mut one = writer();
        let mut many = writer();
        find_command(&mut one, &format!("{} x  y ", word));
        find_command(&mut many, &format!("{}     x  y ", word));
        assert!(same_state(&one, &many));
    }
    let mut w = writer();
    find_command(&mut w, "nope     anything at all");
    assert!(same_state(&w, &printed("Unknown command!\n")));
}
