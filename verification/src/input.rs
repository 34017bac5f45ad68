//! Keyboard line input: keys are echoed on the console and collected into a
//! buffer until the buffer is full or Enter is pressed.
use vstd::prelude::*;
use crate::chars::{find_char, lemma_find_char};
use crate::text::{Writer, WriterView, TEXT_COLOR, all_printable, printable, lemma_put_char_room};

verus! {

/// The state of line input: the buffer being filled, how much of it is
/// filled, and whether Enter has been pressed.
pub struct KeyboardInput {
    pub buffer: Vec<u8>,
    pub index: usize,
    pub is_newline: bool,
}

/// What line input holds.
pub struct InputView {
    pub buffer: Seq<u8>,
    pub index: int,
    pub is_newline: bool,
}

impl View for KeyboardInput {
    type V = InputView;

    open spec fn view(&self) -> InputView {
        InputView { buffer: self.buffer@, index: self.index as int, is_newline: self.is_newline }
    }
}

/// The byte stored for the key `c`: the low byte of its code point.
pub open spec fn key_byte(c: char) -> u8 {
    ((c as u32) % 256) as u8
}

impl InputView {
    /// The line is complete: the buffer is full or Enter was pressed.
    pub open spec fn done(self) -> bool {
        self.index >= self.buffer.len() || self.is_newline
    }

    /// Input and console after the key `c` arrives: with no buffer nothing
    /// happens; Enter ends the line and starts a new console line; any other
    /// key is echoed and, while there is space, stored.
    pub open spec fn handle_key(self, w: WriterView, c: char) -> (InputView, WriterView) {
        if self.buffer.len() == 0 {
            (self, w)
        } else if c == '\n' {
            (InputView { is_newline: true, ..self }, w.put_char('\n', TEXT_COLOR))
        } else {
            let w1 = w.put_char(c, TEXT_COLOR);
            if self.index < self.buffer.len() {
                (InputView { buffer: self.buffer.update(self.index, key_byte(c)), index: self.index + 1, ..self }, w1)
            } else {
                (self, w1)
            }
        }
    }

    /// Input and console after the keys `keys` arrive one by one; keys that
    /// arrive once the line is complete are not taken.
    pub open spec fn run_keys(self, w: WriterView, keys: Seq<char>) -> (InputView, WriterView)
        decreases keys.len(),
    {
        if keys.len() == 0 {
            (self, w)
        } else {
            let (k, w1) = self.run_keys(w, keys.drop_last());
            if k.done() {
                (k, w1)
            } else {
                k.handle_key(w1, keys.last())
            }
        }
    }
}

/// Line input over `buffer`, empty and waiting for keys.
pub open spec fn fresh_input(buffer: Seq<u8>) -> InputView {
    InputView { buffer, index: 0, is_newline: false }
}

/// Handles one key press: does nothing without a buffer; on Enter moves the
/// console to a new line and marks the line complete; otherwise echoes the
/// key and stores its byte while the buffer has space.
pub fn input_handler(input: &mut KeyboardInput, writer: &mut Writer, c: char)
    requires
        old(input).index <= old(input).buffer.len(),
        old(input).buffer.len() > 0 ==> old(writer).wf(),
        old(input).buffer.len() > 0 ==> old(writer)@.room(1),
        old(input).buffer.len() > 0 ==> printable(c),
    ensures
        final(input).buffer.len() == old(input).buffer.len(),
        old(input).index <= final(input).index <= old(input).index + 1,
        final(input).index <= final(input).buffer.len(),
        forall|j: int| 0 <= j < old(input).buffer.len() && j != old(input).index
            ==> #[trigger] final(input).buffer@[j] == old(input).buffer@[j],
        old(input).buffer.len() > 0 ==> final(writer).wf(),
        old(input).buffer.len() == 0 ==> *final(input) == *old(input) && *final(writer) == *old(writer),
        (old(input).buffer.len() > 0 && c == '\n') ==> final(input).is_newline && final(input).index == old(input).index
            && final(input).buffer@ == old(input).buffer@,
        (old(input).buffer.len() > 0 && c != '\n' && old(input).index < old(input).buffer.len()) ==> final(input).index
            == old(input).index + 1 && final(input).buffer@[old(input).index as int] == ((c as u32) % 256) as u8,
        (c != '\n' || old(input).buffer.len() == 0) ==> final(input).is_newline == old(input).is_newline,
        (final(input)@, final(writer)@) == old(input)@.handle_key(old(writer)@, c),
{
    if input.buffer.len() == 0 {
        return;
    }
    if c == '\n' {
        writer.put_char('\n', TEXT_COLOR);
        input.is_newline = true;
        return;
    } else {
        writer.put_char(c, TEXT_COLOR);
    }
    if input.index < input.buffer.len() {
        let byte = (c as u32 % 256) as u8;
        input.buffer.set(input.index, byte);
        input.index = input.index + 1;
    }
}

/// Once the line is complete, further keys change nothing.
pub proof fn lemma_run_keys_done(k: InputView, w: WriterView, keys: Seq<char>, i: int)
    requires
        0 <= i <= keys.len(),
        k.run_keys(w, keys.take(i)).0.done(),
    ensures
        k.run_keys(w, keys) == k.run_keys(w, keys.take(i)),
    decreases keys.len() - i,
{
    if i < keys.len() {
        assert(keys.take(i + 1).drop_last() =~= keys.take(i));
        lemma_run_keys_done(k, w, keys, i + 1);
    } else {
        assert(keys.take(i) =~= keys);
    }
}

/// How many of `keys` a line read into a buffer of `size` bytes takes:
/// the keys up to and including the first Enter when it comes while the
/// buffer has space, or else as many keys as there are or as fit, whichever
/// is fewer.
pub open spec fn keys_taken(size: int, keys: Seq<char>) -> int {
    let enter = find_char(keys, '\n');
    if size <= 0 {
        0
    } else if enter is Some && enter->0 < size {
        enter->0 + 1
    } else if keys.len() < size {
        keys.len() as int
    } else {
        size
    }
}

/// Reads a line from `keys` into `buffer`, echoing it on the console, until
/// the buffer is full, Enter is pressed, or the keys run out; returns the
/// number of bytes stored.
pub fn get_user_input(buffer: &mut Vec<u8>, keys: &[char], writer: &mut Writer) -> (n: usize)
    requires
        old(buffer).len() > 0 ==> old(writer).wf(),
        old(buffer).len() > 0 ==> old(writer)@.room(keys_taken(old(buffer).len() as int, keys@)),
        all_printable(keys@.take(keys_taken(old(buffer).len() as int, keys@))),
    ensures
        old(buffer).len() > 0 ==> final(writer).wf(),
        old(writer).wf() ==> final(writer).wf(),
        n <= final(buffer).len(),
        final(buffer).len() == old(buffer).len(),
        ({
            let (k, w) = fresh_input(old(buffer)@).run_keys(old(writer)@, keys@);
            &&& final(buffer)@ == k.buffer
            &&& n == k.index
            &&& final(writer)@ == w
        }),
{
    let ghost k0 = fresh_input(buffer@);
    let ghost w0 = writer@;
    let mut input = KeyboardInput { buffer: Vec::new(), index: 0, is_newline: false };
    std::mem::swap(&mut input.buffer, buffer);
    assert(input@ == k0);
    let ghost taken = keys_taken(k0.buffer.len() as int, keys@);
    let ghost w_orig = *writer;
    proof {
        lemma_find_char(keys@, '\n');
    }
    let mut i: usize = 0;
    while input.index < input.buffer.len() && !input.is_newline && i < keys.len()
        invariant
            i <= keys.len(),
            i <= taken,
            taken == keys_taken(k0.buffer.len() as int, keys@),
            input.index <= input.buffer.len(),
            input.buffer.len() > 0 ==> writer.wf(),
            w_orig.wf() ==> writer.wf(),
            (input@, writer@) == k0.run_keys(w0, keys@.take(i as int)),
            input.buffer.len() > 0 ==> writer@.room(taken - i),
            all_printable(keys@.take(taken)),
            input.buffer.len() == k0.buffer.len(),
            !input.is_newline ==> input.index == i,
            !input.is_newline ==> forall|j: int| 0 <= j < i ==> keys@[j] != '\n',
            match find_char(keys@, '\n') {
                Some(p) => 0 <= p < keys@.len() && keys@[p] == '\n' && forall|j: int| 0 <= j < p ==> keys@[j] != '\n',
                None => forall|j: int| 0 <= j < keys@.len() ==> keys@[j] != '\n',
            },
        decreases keys.len() - i,
    {
        assert(keys@.take(i + 1).drop_last() =~= keys@.take(i as int));
        assert(keys@.take(i + 1).last() == keys@[i as int]);
        assert(i < taken);
        assert(keys@.take(taken)[i as int] == keys@[i as int]);
        proof {
            lemma_put_char_room(writer@, keys@[i as int], TEXT_COLOR, taken - i - 1);
            lemma_put_char_room(writer@, '\n', TEXT_COLOR, taken - i - 1);
        }
        input_handler(&mut input, writer, keys[i]);
        i = i + 1;
    }
    proof {
        if i < keys.len() {
            lemma_run_keys_done(k0, w0, keys@, i as int);
        } else {
            assert(keys@.take(i as int) =~= keys@);
        }
    }
    std::mem::swap(&mut input.buffer, buffer);
    input.index
}

/// What a completed read stores: the bytes of the keys typed, in order, up
/// to the first Enter or until the buffer is full; the rest of the buffer is
/// left as it was.
pub proof fn lemma_line_holds_keys(buffer: Seq<u8>, w: WriterView, keys: Seq<char>)
    ensures
        ({
            let k = fresh_input(buffer).run_keys(w, keys).0;
            &&& 0 <= k.index <= keys.len()
            &&& k.index <= buffer.len()
            &&& k.buffer.len() == buffer.len()
            &&& forall|j: int| 0 <= j < k.index ==> #[trigger] k.buffer[j] == ((keys[j] as u32) % 256) as u8 && keys[j] != '\n'
            &&& forall|j: int| k.index <= j < buffer.len() ==> #[trigger] k.buffer[j] == buffer[j]
            &&& !k.is_newline ==> k.index == keys.len() || k.index == buffer.len()
        }),
    decreases keys.len(),
{
    if keys.len() > 0 {
        lemma_line_holds_keys(buffer, w, keys.drop_last());
        let (k1, w1) = fresh_input(buffer).run_keys(w, keys.drop_last());
        let k = fresh_input(buffer).run_keys(w, keys).0;
        assert forall|j: int| 0 <= j < k1.index implies keys.drop_last()[j] == keys[j] by {}
        if !k1.done() && buffer.len() > 0 && keys.last() != '\n' {
            assert(k1.index == keys.len() - 1);
            assert(k.index == k1.index + 1);
            assert(k.buffer == k1.buffer.update(k1.index, key_byte(keys.last())));
            assert forall|j: int| 0 <= j < k.index implies #[trigger] k.buffer[j] == ((keys[j] as u32) % 256) as u8 && keys[j] != '\n' by {
                if j < k1.index {
                    assert(k.buffer[j] == k1.buffer[j]);
                }
            }
        }
    }
}

} // verus!
