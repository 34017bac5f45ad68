//! Running the built-in commands of the shell.
use vstd::prelude::*;
use crate::chars::{chars_of, count_leading_ws, find_char, find_in_range, range_eq, trim_start, spaces, lemma_find_char_after, lemma_trim_start_spaces, lemma_find_char, is_whitespace_spec, leading_ws};
use crate::text::CLEAR_COLOR;
use crate::clear::clear;
use crate::text::{Writer, WriterView, TEXT_COLOR, all_printable, lemma_print_concat};

verus! {

broadcast use vstd::string::group_string_axioms;

/// Where the command word of `command` ends: at its first space, or at its end.
pub open spec fn command_word_end(command: Seq<char>) -> int {
    match find_char(command, ' ') {
        Some(i) => i,
        None => command.len() as int,
    }
}

/// The command word: everything before the first space.
pub open spec fn command_name(command: Seq<char>) -> Seq<char> {
    command.take(command_word_end(command))
}

/// The arguments: everything from the first space on, without leading whitespace.
pub open spec fn command_args(command: Seq<char>) -> Seq<char> {
    trim_start(command.skip(command_word_end(command)))
}

/// What the shell writes in reply to `command`, or `None` when the command
/// clears the screen instead.
pub open spec fn command_reply(command: Seq<char>) -> Option<Seq<char>> {
    let name = command_name(command);
    if name == "echo"@ {
        Some(command_args(command) + "\n"@)
    } else if name == "clear"@ {
        None
    } else if name == "help"@ {
        Some("Available commands: echo\n"@)
    } else {
        Some("Unknown command!\n"@)
    }
}

/// The writer after the shell has run `command`.
pub open spec fn after_command(w: WriterView, command: Seq<char>) -> WriterView {
    match command_reply(command) {
        Some(reply) => w.print(reply, TEXT_COLOR),
        None => w.screen_cleared().cursor_reset(),
    }
}

/// Whether the writer can take the reply to `command`.
pub open spec fn reply_fits(w: WriterView, command: Seq<char>) -> bool {
    match command_reply(command) {
        Some(reply) => w.room(reply.len() as int) && all_printable(reply),
        None => true,
    }
}

/// Extra spaces between the command word and its arguments change nothing:
/// the command does the same after one space as after several; and a
/// command word other than `echo`, `clear` or `help` is reported as
/// unknown whatever follows it.
pub proof fn lemma_extra_spaces(word: Seq<char>, args: Seq<char>, k: nat)
    requires
        forall|j: int| 0 <= j < word.len() ==> word[j] != ' ',
        k >= 1,
    ensures
        command_reply(word + spaces(1) + args) == command_reply(word + spaces(k) + args),
        word != "echo"@ && word != "clear"@ && word != "help"@ ==> command_reply(word + spaces(k) + args)
            == Some("Unknown command!\n"@),
{
    lemma_command_parts(word, spaces(1) + args);
    lemma_command_parts(word, spaces(k) + args);
    assert(word + spaces(1) + args =~= word + (spaces(1) + args));
    assert(word + spaces(k) + args =~= word + (spaces(k) + args));
    lemma_trim_start_spaces(1, args);
    lemma_trim_start_spaces(k, args);
}

/// A command made of a word without spaces and a rest that starts with a
/// space has that word as its name and the rest, trimmed at the start, as
/// its arguments.
proof fn lemma_command_parts(word: Seq<char>, rest: Seq<char>)
    requires
        forall|j: int| 0 <= j < word.len() ==> word[j] != ' ',
        rest.len() > 0,
        rest[0] == ' ',
    ensures
        command_name(word + rest) == word,
        command_args(word + rest) == trim_start(rest),
{
    lemma_find_char_after(word, rest, ' ');
    assert((word + rest).take(word.len() as int) =~= word);
    assert((word + rest).skip(word.len() as int) =~= rest);
}

/// The first word of `word + rest`, where `word` holds no space and `rest`
/// is empty or starts with a space, is `word`.
proof fn lemma_first_word(word: Seq<char>, rest: Seq<char>)
    requires
        forall|j: int| 0 <= j < word.len() ==> word[j] != ' ',
        rest.len() == 0 || rest[0] == ' ',
    ensures
        command_name(word + rest) == word,
        rest.len() == 0 ==> command_args(word + rest) == Seq::<char>::empty(),
        rest.len() > 0 ==> command_args(word + rest) == trim_start(rest),
{
    if rest.len() == 0 {
        assert(word + rest =~= word);
        lemma_find_char(word, ' ');
        assert(word.take(word.len() as int) =~= word);
        assert(word.skip(word.len() as int) =~= Seq::<char>::empty());
    } else {
        lemma_command_parts(word, rest);
    }
}

/// What a built-in command does, by its first word, whether arguments
/// follow it (after a space) or not: `help` writes the list of commands,
/// `clear` fills the screen with the clear colour and moves the cursor to
/// the top-left corner, and any other word than these and `echo` is
/// reported as unknown.
pub proof fn lemma_command_by_word(w: WriterView, word: Seq<char>, rest: Seq<char>, x: int, y: int)
    requires
        forall|j: int| 0 <= j < word.len() ==> word[j] != ' ',
        rest.len() == 0 || rest[0] == ' ',
    ensures
        word == "help"@ ==> after_command(w, word + rest) == w.print("Available commands: echo\n"@, TEXT_COLOR),
        word == "clear"@ ==> {
            let t = after_command(w, word + rest);
            &&& t.cursor_x == 0
            &&& t.cursor_y == 0
            &&& t.scroll_y == w.scroll_y
            &&& t.screen.image.dom() == w.screen.image.dom()
            &&& (w.screen.image.dom().contains((x, y)) && 0 <= x < w.screen.width && 0 <= y < w.screen.height)
                ==> t.screen.image[(x, y)] == CLEAR_COLOR
        },
        (word != "help"@ && word != "clear"@ && word != "echo"@) ==> after_command(w, word + rest) == w.print(
            "Unknown command!\n"@,
            TEXT_COLOR,
        ),
{
    lemma_first_word(word, rest);
    reveal_strlit("clear");
    reveal_strlit("help");
    reveal_strlit("echo");
    let t = after_command(w, word + rest);
    if word == "clear"@ {
        assert(t.screen.image.dom() =~= w.screen.image.dom());
    }
}

/// `echo` writes its arguments, without the whitespace before them, and
/// ends the line: after `echo`, one or more spaces and a text that does not
/// begin with whitespace, exactly that text and a newline are written; with
/// nothing after `echo`, an empty line is written.
pub proof fn lemma_echo_writes(w: WriterView, k: nat, text: Seq<char>)
    requires
        text.len() == 0 || !is_whitespace_spec(text[0]),
        k >= 1 || text.len() == 0,
    ensures
        after_command(w, "echo"@ + spaces(k) + text) == w.print(text + "\n"@, TEXT_COLOR),
{
    reveal_strlit("echo");
    reveal_strlit("clear");
    reveal_strlit("help");
    let rest = spaces(k) + text;
    assert("echo"@ + spaces(k) + text =~= "echo"@ + rest);
    if k == 0 {
        assert(rest =~= Seq::<char>::empty());
    } else {
        assert(rest[0] == ' ');
    }
    lemma_first_word("echo"@, rest);
    lemma_trim_start_spaces(k, text);
    assert(leading_ws(text) == 0);
    assert(text.skip(0) =~= text);
}

/// Runs a built-in command: `echo` writes its arguments, `clear` clears the
/// screen, `help` lists the commands, and anything else is reported as
/// unknown.
pub fn find_command(writer: &mut Writer, command: &str)
    requires
        old(writer).wf(),
        reply_fits(old(writer)@, command@),
    ensures
        final(writer).wf(),
        final(writer)@ == after_command(old(writer)@, command@),
{
    let v = chars_of(command);
    assert(v@.subrange(0, v.len() as int) =~= command@);
    find_command_in(writer, &v, 0, v.len());
}

/// Runs the built-in command held in `v[start..end]`, as `find_command` does.
pub fn find_command_in(writer: &mut Writer, v: &Vec<char>, start: usize, end: usize)
    requires
        start <= end <= v.len(),
        old(writer).wf(),
        reply_fits(old(writer)@, v@.subrange(start as int, end as int)),
    ensures
        final(writer).wf(),
        final(writer)@ == after_command(old(writer)@, v@.subrange(start as int, end as int)),
{
    let ghost command = v@.subrange(start as int, end as int);
    let word_end = match find_in_range(v, start, end, ' ') {
        Some(i) => start + i,
        None => end,
    };
    let echo = chars_of("echo");
    let clear_word = chars_of("clear");
    let help = chars_of("help");
    assert(v@.subrange(start as int, word_end as int) =~= command_name(command));
    if range_eq(v, start, word_end, &echo) {
        let lead = count_leading_ws(v, word_end, end);
        assert(v@.subrange(word_end as int, end as int) =~= command.skip(word_end - start));
        proof {
            crate::chars::lemma_leading_ws(command.skip(word_end - start));
        }
        let ghost args = v@.subrange(word_end + lead, end as int);
        assert(args =~= command_args(command));
        proof {
            reveal_strlit("\n");
            assert(args + "\n"@ == command_reply(command).unwrap());
            assert forall|i: int| 0 <= i < args.len() implies crate::text::printable(#[trigger] args[i]) by {
                assert(args[i] == (args + "\n"@)[i]);
            }
            assert((args + "\n"@)[args.len() as int] == '\n');
            crate::text::lemma_print_room(writer@, args, TEXT_COLOR, 1);
            lemma_print_concat(writer@, args, "\n"@, TEXT_COLOR);
        }
        writer.print_chars(v, word_end + lead, end, TEXT_COLOR);
        writer.print("\n", TEXT_COLOR);
    } else if range_eq(v, start, word_end, &clear_word) {
        clear(writer);
    } else if range_eq(v, start, word_end, &help) {
        proof {
            reveal_strlit("Available commands: echo\n");
        }
        writer.print("Available commands: echo\n", TEXT_COLOR);
    } else {
        proof {
            reveal_strlit("Unknown command!\n");
        }
        writer.print("Unknown command!\n", TEXT_COLOR);
    }
}

} // verus!
