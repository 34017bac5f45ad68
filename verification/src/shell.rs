//! The debug shell's handling of one input line: it runs the built-in
//! command and decides what the shell does next.
use vstd::prelude::*;
use crate::chars::{chars_of, copy_range, find_char, find_in_range, range_starts_with, starts_with, trim, trim_range};
use crate::pathtracer::{after_command, command_reply, find_command_in};
use crate::text::{Writer, WriterView, TEXT_COLOR, all_printable, lemma_print_room, lemma_print_concat};

verus! {

broadcast use vstd::string::group_string_axioms;

/// What the shell does after a line, as a value of the specification.
pub enum LineOutcome {
    /// Wait for the next line.
    Continue,
    /// Show the file named by the arguments.
    Cat(Seq<char>),
    /// Leave the shell.
    Exit,
    /// Run the graphics demo.
    Demo,
}

/// What the shell does after a line.
pub enum ShellAction {
    /// Wait for the next line.
    Continue,
    /// Show the file whose name is held here.
    Cat(Vec<char>),
    /// Leave the shell.
    Exit,
    /// Run the graphics demo.
    Demo,
}

impl View for ShellAction {
    type V = LineOutcome;

    open spec fn view(&self) -> LineOutcome {
        match self {
            ShellAction::Continue => LineOutcome::Continue,
            ShellAction::Cat(name) => LineOutcome::Cat(name@),
            ShellAction::Exit => LineOutcome::Exit,
            ShellAction::Demo => LineOutcome::Demo,
        }
    }
}

/// Text that `cat` without a file name writes.
pub open spec fn cat_usage_text() -> Seq<char> {
    "cat: missing file name\n"@
}

/// Text that `exit` writes.
pub open spec fn exit_text() -> Seq<char> {
    "Exiting the GUIneu kernel-mode debug shell...\n"@
}

/// What the shell does after the (trimmed, non-empty) command `s`.
pub open spec fn command_outcome(s: Seq<char>) -> LineOutcome {
    if starts_with(s, "cat"@) {
        match find_char(s, ' ') {
            Some(i) => LineOutcome::Cat(trim(s.skip(i + 1))),
            None => LineOutcome::Continue,
        }
    } else if starts_with(s, "exit"@) {
        LineOutcome::Exit
    } else if starts_with(s, "demo"@) {
        LineOutcome::Demo
    } else {
        LineOutcome::Continue
    }
}

/// What the shell writes after the built-in command's reply to `s`.
pub open spec fn line_notice(s: Seq<char>) -> Seq<char> {
    if starts_with(s, "cat"@) {
        if find_char(s, ' ') is None {
            cat_usage_text()
        } else {
            Seq::empty()
        }
    } else if starts_with(s, "exit"@) {
        exit_text()
    } else {
        Seq::empty()
    }
}

/// What the shell does after the input line `line`.
pub open spec fn line_outcome(line: Seq<char>) -> LineOutcome {
    if trim(line).len() == 0 {
        LineOutcome::Continue
    } else {
        command_outcome(trim(line))
    }
}

/// The console after the shell has handled `line`.
pub open spec fn after_line(w: WriterView, line: Seq<char>) -> WriterView {
    let s = trim(line);
    if s.len() == 0 {
        w
    } else {
        after_command(w, s).print(line_notice(s), TEXT_COLOR)
    }
}

/// Whether the console can take everything the shell writes for `line`.
pub open spec fn line_fits(w: WriterView, line: Seq<char>) -> bool {
    let s = trim(line);
    s.len() > 0 ==> match command_reply(s) {
        Some(reply) => w.room((reply.len() + line_notice(s).len()) as int) && all_printable(reply),
        None => w.room(line_notice(s).len() as int),
    }
}

/// Whether `t` begins with `p`, stated on its first characters.
pub open spec fn begins_with(t: Seq<char>, p: Seq<char>) -> bool {
    p.len() <= t.len() && t.subrange(0, p.len() as int) == p
}

/// What the shell does after a line, by how the line reads once trimmed:
/// a blank line does nothing and writes nothing; a line beginning with
/// "cat" asks for the file named by what follows its first space (trimmed),
/// or, with no space, writes that the file name is missing; otherwise a line
/// beginning with "exit" says goodbye and ends the shell, one beginning with
/// "demo" runs the demo, and any other line does nothing more than its
/// built-in command.
pub proof fn lemma_line_outcome(w: WriterView, line: Seq<char>)
    ensures
        ({
            let t = trim(line);
            let cat = begins_with(t, "cat"@);
            let exit = begins_with(t, "exit"@);
            let demo = begins_with(t, "demo"@);
            let has_space = exists|i: int| 0 <= i < t.len() && t[i] == ' ';
            &&& t.len() == 0 ==> line_outcome(line) == LineOutcome::Continue && after_line(w, line) == w
            &&& (t.len() > 0 && cat && has_space) ==> line_outcome(line) == LineOutcome::Cat(
                trim(t.skip(find_char(t, ' ')->0 + 1)))
                && after_line(w, line) == after_command(w, t)
            &&& (t.len() > 0 && cat && !has_space) ==> line_outcome(line) == LineOutcome::Continue
                && after_line(w, line) == after_command(w, t).print("cat: missing file name\n"@, TEXT_COLOR)
            &&& (t.len() > 0 && !cat && exit) ==> line_outcome(line) == LineOutcome::Exit
                && after_line(w, line) == after_command(w, t).print(
                "Exiting the GUIneu kernel-mode debug shell...\n"@, TEXT_COLOR)
            &&& (t.len() > 0 && !cat && !exit && demo) ==> line_outcome(line) == LineOutcome::Demo
                && after_line(w, line) == after_command(w, t)
            &&& (t.len() > 0 && !cat && !exit && !demo) ==> line_outcome(line) == LineOutcome::Continue
                && after_line(w, line) == after_command(w, t)
        }),
{
    let t = trim(line);
    crate::chars::lemma_find_char(t, ' ');
    assert(t.take(3) =~= t.subrange(0, 3));
    assert(t.take(4) =~= t.subrange(0, 4));
    assert(starts_with(t, "cat"@) == begins_with(t, "cat"@));
    assert(starts_with(t, "exit"@) == begins_with(t, "exit"@));
    assert(starts_with(t, "demo"@) == begins_with(t, "demo"@));
    let a = after_command(w, t);
    assert(a.print(Seq::empty(), TEXT_COLOR) == a);
    if find_char(t, ' ') is Some {
        assert(t[find_char(t, ' ')->0] == ' ');
    }
}

/// Handles one input line of the shell: blank lines are ignored; otherwise
/// the built-in command runs, and then `cat <file>` asks for a file, `cat`
/// alone is reported as missing its file name, `exit` says goodbye and ends
/// the shell, and `demo` asks for the demo.
pub fn run_line(writer: &mut Writer, line: &str) -> (action: ShellAction)
    requires
        old(writer).wf(),
        line_fits(old(writer)@, line@),
    ensures
        final(writer).wf(),
        final(writer)@ == after_line(old(writer)@, line@),
        action@ == line_outcome(line@),
{
    let ghost w0 = writer@;
    let v = chars_of(line);
    let len = v.len();
    assert(v@.subrange(0, len as int) =~= line@);
    let (from, to) = trim_range(&v, 0, len);
    let ghost s = v@.subrange(from as int, to as int);
    if from == to {
        return ShellAction::Continue;
    }
    proof {
        reveal_strlit("cat: missing file name\n");
        reveal_strlit("Exiting the GUIneu kernel-mode debug shell...\n");
        let notice = line_notice(s);
        match command_reply(s) {
            Some(reply) => {
                lemma_print_room(w0, reply, TEXT_COLOR, notice.len() as int);
            },
            None => {},
        }
    }
    find_command_in(writer, &v, from, to);
    assert(writer@ == after_command(w0, s));
    let cat = chars_of("cat");
    let exit = chars_of("exit");
    let demo = chars_of("demo");
    if range_starts_with(&v, from, to, &cat) {
        match find_in_range(&v, from, to, ' ') {
            Some(i) => {
                let (a, b) = trim_range(&v, from + i + 1, to);
                assert(v@.subrange(from + i + 1, to as int) =~= s.skip(i + 1));
                let name = copy_range(&v, a, b);
                assert(writer@.print(Seq::empty(), TEXT_COLOR) == writer@);
                ShellAction::Cat(name)
            },
            None => {
                writer.print("cat: missing file name\n", TEXT_COLOR);
                ShellAction::Continue
            },
        }
    } else if range_starts_with(&v, from, to, &exit) {
        writer.print("Exiting the GUIneu kernel-mode debug shell...\n", TEXT_COLOR);
        ShellAction::Exit
    } else if range_starts_with(&v, from, to, &demo) {
        assert(writer@.print(Seq::empty(), TEXT_COLOR) == writer@);
        ShellAction::Demo
    } else {
        assert(writer@.print(Seq::empty(), TEXT_COLOR) == writer@);
        ShellAction::Continue
    }
}

/// Showing a file writes its contents and ends the line; a file that was
/// not found is reported with its name right after "cat: ", and the
/// complaint ends the line.
pub proof fn lemma_cat_text(name: Seq<char>, contents: Seq<char>)
    ensures
        cat_text(name, Some(contents)) == contents + seq!['\n'],
        cat_text(name, None).subrange(0, 5) == seq!['c', 'a', 't', ':', ' '],
        cat_text(name, None).subrange(5, 5 + name.len() as int) == name,
        cat_text(name, None).last() == '\n',
{
    reveal_strlit("\n");
    reveal_strlit("cat: ");
    reveal_strlit(": No such file or directory. Note that paths must start with ./\n");
    assert("\n"@ =~= seq!['\n']);
    assert(cat_text(name, None).subrange(0, 5) =~= seq!['c', 'a', 't', ':', ' ']);
    assert(cat_text(name, None).subrange(5, 5 + name.len() as int) =~= name);
}

/// What `cat` writes for the file `name`: its contents and a line break, or
/// a complaint when there is no such file.
pub open spec fn cat_text(name: Seq<char>, contents: Option<Seq<char>>) -> Seq<char> {
    match contents {
        Some(text) => text + "\n"@,
        None => "cat: "@ + name + ": No such file or directory. Note that paths must start with ./\n"@,
    }
}

/// Writes the outcome of `cat name`: the file's contents followed by a line
/// break, or a complaint when the file was not found.
pub fn show_file(writer: &mut Writer, name: &Vec<char>, contents: Option<&str>)
    requires
        old(writer).wf(),
        old(writer)@.room(cat_text(name@, match contents { Some(t) => Some(t@), None => None }).len() as int),
        all_printable(cat_text(name@, match contents { Some(t) => Some(t@), None => None })),
    ensures
        final(writer).wf(),
        final(writer)@ == old(writer)@.print(cat_text(name@, match contents { Some(t) => Some(t@), None => None }), TEXT_COLOR),
{
    let ghost w0 = writer@;
    proof {
        reveal_strlit("\n");
        reveal_strlit("cat: ");
        reveal_strlit(": No such file or directory. Note that paths must start with ./\n");
    }
    match contents {
        Some(text) => {
            let ghost t = text@;
            proof {
                assert forall|i: int| 0 <= i < t.len() implies crate::text::printable(#[trigger] t[i]) by {
                    assert(t[i] == (t + "\n"@)[i]);
                }
                lemma_print_room(w0, t, TEXT_COLOR, 1);
                lemma_print_concat(w0, t, "\n"@, TEXT_COLOR);
            }
            writer.print(text, TEXT_COLOR);
            writer.print("\n", TEXT_COLOR);
        },
        None => {
            let ghost a = "cat: "@;
            let ghost b = ": No such file or directory. Note that paths must start with ./\n"@;
            proof {
                let full = a + name@ + b;
                assert forall|i: int| 0 <= i < name@.len() implies crate::text::printable(#[trigger] name@[i]) by {
                    assert(name@[i] == full[a.len() + i]);
                }
                lemma_print_room(w0, a, TEXT_COLOR, (name@.len() + b.len()) as int);
                lemma_print_room(w0.print(a, TEXT_COLOR), name@, TEXT_COLOR, b.len() as int);
                lemma_print_concat(w0, a, name@, TEXT_COLOR);
                lemma_print_concat(w0, a + name@, b, TEXT_COLOR);
            }
            writer.print("cat: ", TEXT_COLOR);
            writer.print_chars(name, 0, name.len(), TEXT_COLOR);
            assert(name@.subrange(0, name@.len() as int) =~= name@);
            writer.print(": No such file or directory. Note that paths must start with ./\n", TEXT_COLOR);
        },
    }
}

/// The decimal digit for `d`.
pub open spec fn digit_char(d: int) -> char {
    seq!['0', '1', '2', '3', '4', '5', '6', '7', '8', '9'][d]
}

/// The decimal representation of `n`, without leading zeros.
pub open spec fn decimal(n: nat) -> Seq<char>
    decreases n,
{
    if n < 10 {
        seq![digit_char(n as int)]
    } else {
        decimal(n / 10).push(digit_char((n % 10) as int))
    }
}

/// The decimal representation of `n`, without leading zeros.
pub fn decimal_digits(n: usize) -> (digits: Vec<char>)
    ensures
        digits@ == decimal(n as nat),
    decreases n,
{
    let table = ['0', '1', '2', '3', '4', '5', '6', '7', '8', '9'];
    assert(table@ =~= seq!['0', '1', '2', '3', '4', '5', '6', '7', '8', '9']);
    if n < 10 {
        vec![table[n]]
    } else {
        let mut digits = decimal_digits(n / 10);
        digits.push(table[n % 10]);
        digits
    }
}

/// Every decimal digit can be written on the console.
pub proof fn lemma_decimal_printable(n: nat)
    ensures
        all_printable(decimal(n)),
    decreases n,
{
    if n >= 10 {
        lemma_decimal_printable(n / 10);
        assert forall|i: int| 0 <= i < decimal(n).len() implies crate::text::printable(#[trigger] decimal(n)[i]) by {
            if i < decimal(n / 10).len() {
                assert(decimal(n)[i] == decimal(n / 10)[i]);
            }
        }
    }
}

/// The number that a string of decimal digits stands for.
pub open spec fn digits_value(digits: Seq<char>) -> int
    decreases digits.len(),
{
    if digits.len() == 0 {
        0
    } else {
        10 * digits_value(digits.drop_last()) + (digits.last() as u32 - '0' as u32)
    }
}

/// The decimal form of `n` is a string of digits that stands for `n`, with
/// no leading zero unless `n` is zero.
pub proof fn lemma_decimal_value(n: nat)
    ensures
        digits_value(decimal(n)) == n,
        forall|i: int| 0 <= i < decimal(n).len() ==> '0' <= #[trigger] decimal(n)[i] <= '9',
        decimal(n).len() >= 1,
        decimal(n).len() > 1 ==> decimal(n)[0] != '0',
        n >= 10 ==> decimal(n).len() >= 2,
    decreases n,
{
    lemma_digit_chars();
    if n < 10 {
        assert(decimal(n).drop_last() =~= Seq::<char>::empty());
        assert(digits_value(Seq::<char>::empty()) == 0);
        assert(decimal(n).last() == digit_char(n as int));
    } else {
        lemma_decimal_value(n / 10);
        let d = decimal(n);
        assert(d.drop_last() =~= decimal(n / 10));
        assert forall|i: int| 0 <= i < d.len() implies '0' <= #[trigger] d[i] <= '9' by {
            if i < d.len() - 1 {
                assert(d[i] == decimal(n / 10)[i]);
            }
        }
        assert(d[0] == decimal(n / 10)[0]);
        assert(d.last() == digit_char((n % 10) as int));
        assert(n == 10 * (n / 10) + n % 10);
        assert(digits_value(d) == 10 * digits_value(d.drop_last()) + (d.last() as u32 - '0' as u32));
        if decimal(n / 10).len() == 1 {
            assert(n / 10 >= 1);
            assert(n / 10 < 10);
            assert(decimal(n / 10)[0] == digit_char((n / 10) as int));
        }
    }
}

/// Each decimal digit character stands for its digit.
proof fn lemma_digit_chars()
    ensures
        forall|d: int| 0 <= d < 10 ==> (#[trigger] digit_char(d)) as u32 == '0' as u32 + d,
        '0' as u32 == 48,
{
    assert forall|d: int| 0 <= d < 10 implies (#[trigger] digit_char(d)) as u32 == '0' as u32 + d by {
        let t = seq!['0', '1', '2', '3', '4', '5', '6', '7', '8', '9'];
        if d == 0 { assert(t[0] == '0'); }
        else if d == 1 { assert(t[1] == '1'); }
        else if d == 2 { assert(t[2] == '2'); }
        else if d == 3 { assert(t[3] == '3'); }
        else if d == 4 { assert(t[4] == '4'); }
        else if d == 5 { assert(t[5] == '5'); }
        else if d == 6 { assert(t[6] == '6'); }
        else if d == 7 { assert(t[7] == '7'); }
        else if d == 8 { assert(t[8] == '8'); }
        else { assert(t[9] == '9'); }
    }
}

/// The line announcing a file before its contents are shown.
pub open spec fn file_announcement(name: Seq<char>, size: nat) -> Seq<char> {
    "The file "@ + name + "'s length is "@ + decimal(size) + ", and the contents are:\n\n"@
}

/// Announces the file `name` of `size` bytes whose contents follow.
pub fn announce_file(writer: &mut Writer, name: &str, size: usize)
    requires
        old(writer).wf(),
        old(writer)@.room(file_announcement(name@, size as nat).len() as int),
        all_printable(name@),
    ensures
        final(writer).wf(),
        final(writer)@ == old(writer)@.print(file_announcement(name@, size as nat), TEXT_COLOR),
{
    let ghost w0 = writer@;
    let ghost a = "The file "@;
    let ghost b = "'s length is "@;
    let ghost c = ", and the contents are:\n\n"@;
    let digits = decimal_digits(size);
    let ghost d = digits@;
    proof {
        reveal_strlit("The file ");
        reveal_strlit("'s length is ");
        reveal_strlit(", and the contents are:\n\n");
        lemma_decimal_printable(size as nat);
        let t = file_announcement(name@, size as nat);
        assert(t == a + name@ + b + d + c);
        lemma_print_room(w0, a, TEXT_COLOR, (name@.len() + b.len() + d.len() + c.len()) as int);
        let w1 = w0.print(a, TEXT_COLOR);
        lemma_print_room(w1, name@, TEXT_COLOR, (b.len() + d.len() + c.len()) as int);
        let w2 = w1.print(name@, TEXT_COLOR);
        lemma_print_room(w2, b, TEXT_COLOR, (d.len() + c.len()) as int);
        let w3 = w2.print(b, TEXT_COLOR);
        lemma_print_room(w3, d, TEXT_COLOR, c.len() as int);
        lemma_print_concat(w0, a, name@, TEXT_COLOR);
        lemma_print_concat(w0, a + name@, b, TEXT_COLOR);
        lemma_print_concat(w0, a + name@ + b, d, TEXT_COLOR);
        lemma_print_concat(w0, a + name@ + b + d, c, TEXT_COLOR);
    }
    writer.print("The file ", TEXT_COLOR);
    writer.print(name, TEXT_COLOR);
    writer.print("'s length is ", TEXT_COLOR);
    writer.print_chars(&digits, 0, digits.len(), TEXT_COLOR);
    assert(digits@.subrange(0, digits@.len() as int) =~= digits@);
    writer.print(", and the contents are:\n\n", TEXT_COLOR);
}

} // verus!
