//! An in-place line editor over a fixed buffer: the editing keys of a raw
//! console, each turned into a change of the line and the bytes that bring
//! the terminal up to date.

use vstd::prelude::*;
use crate::decimal::{decimal, digits_value, lemma_decimal_denotes, push_decimal};
use vstd::string::StringSliceAdditionalSpecFns;

verus! {

/// Capacity of the line in bytes.
pub const LINE_MAX: usize = 256;

/// Line feed.
pub const KEY_LF: u8 = 0x0a;
/// Carriage return.
pub const KEY_CR: u8 = 0x0d;
/// Backspace.
pub const KEY_BS: u8 = 0x08;
/// Delete, which erases like backspace.
pub const KEY_DEL: u8 = 0x7f;
/// Escape, which starts a two-byte control sequence.
pub const KEY_ESC: u8 = 0x1b;
/// Ctrl-A: move to the start of the line.
pub const KEY_CTRL_A: u8 = 0x01;
/// Ctrl-D: end of input on an empty line.
pub const KEY_CTRL_D: u8 = 0x04;
/// Ctrl-E: move to the end of the line.
pub const KEY_CTRL_E: u8 = 0x05;
/// Ctrl-U: erase everything before the cursor.
pub const KEY_CTRL_U: u8 = 0x15;
/// Ctrl-W: erase the word before the cursor.
pub const KEY_CTRL_W: u8 = 0x17;

/// A byte that the editor inserts: an ASCII graphic character or a space.
pub open spec fn is_printable(c: u8) -> bool {
    0x20 <= c <= 0x7e
}

/// Every byte of `s` is printable.
pub open spec fn all_printable(s: Seq<u8>) -> bool {
    forall|i: int| 0 <= i < s.len() ==> is_printable(#[trigger] s[i])
}

/// The start of the run of spaces that ends at `i`.
pub open spec fn skip_spaces_back(line: Seq<u8>, i: int) -> int
    decreases i,
{
    if i > 0 && line[i - 1] == 0x20 {
        skip_spaces_back(line, i - 1)
    } else {
        i
    }
}

/// The start of the run of non-spaces that ends at `i`.
pub open spec fn skip_word_back(line: Seq<u8>, i: int) -> int
    decreases i,
{
    if i > 0 && line[i - 1] != 0x20 {
        skip_word_back(line, i - 1)
    } else {
        i
    }
}

/// Where the word before `pos` starts: spaces just before `pos` are skipped,
/// then the word before them.
pub open spec fn word_start(line: Seq<u8>, pos: int) -> int {
    skip_word_back(line, skip_spaces_back(line, pos))
}

/// The line and cursor after inserting `c` at the cursor.
pub open spec fn after_insert(st: (Seq<u8>, int), c: u8) -> (Seq<u8>, int) {
    (st.0.take(st.1).push(c) + st.0.skip(st.1), st.1 + 1)
}

/// The line and cursor after erasing the byte before the cursor, if any.
pub open spec fn after_backspace(st: (Seq<u8>, int)) -> (Seq<u8>, int) {
    if st.1 == 0 {
        st
    } else {
        (st.0.take(st.1 - 1) + st.0.skip(st.1), st.1 - 1)
    }
}

/// The line and cursor after erasing everything before the cursor.
pub open spec fn after_kill_line(st: (Seq<u8>, int)) -> (Seq<u8>, int) {
    (st.0.skip(st.1), 0)
}

/// The line and cursor after erasing the word before the cursor.
pub open spec fn after_kill_word(st: (Seq<u8>, int)) -> (Seq<u8>, int) {
    let w = word_start(st.0, st.1);
    (st.0.take(w) + st.0.skip(st.1), w)
}

/// The line and cursor after moving one byte to the left, if possible.
pub open spec fn after_left(st: (Seq<u8>, int)) -> (Seq<u8>, int) {
    if st.1 > 0 {
        (st.0, st.1 - 1)
    } else {
        st
    }
}

/// The line and cursor after moving one byte to the right, if possible.
pub open spec fn after_right(st: (Seq<u8>, int)) -> (Seq<u8>, int) {
    if st.1 < st.0.len() {
        (st.0, st.1 + 1)
    } else {
        st
    }
}

/// The line and cursor after moving to the start of the line.
pub open spec fn after_start(st: (Seq<u8>, int)) -> (Seq<u8>, int) {
    (st.0, 0)
}

/// The line and cursor after moving to the end of the line.
pub open spec fn after_end(st: (Seq<u8>, int)) -> (Seq<u8>, int) {
    (st.0, st.0.len() as int)
}

/// Carriage return and line feed.
pub open spec fn crlf() -> Seq<u8> {
    seq![0x0du8, 0x0au8]
}

/// The escape sequence that moves the terminal cursor one column left.
pub open spec fn cursor_left_seq() -> Seq<u8> {
    seq![0x1bu8, 0x5bu8, 0x44u8]
}

/// The escape sequence that moves the terminal cursor one column right.
pub open spec fn cursor_right_seq() -> Seq<u8> {
    seq![0x1bu8, 0x5bu8, 0x43u8]
}

/// The escape sequence that moves the terminal cursor `n` columns left;
/// nothing when `n` is zero.
pub open spec fn cursor_back_seq(n: nat) -> Seq<u8> {
    if n > 0 {
        seq![0x1bu8, 0x5bu8] + decimal(n) + seq![0x44u8]
    } else {
        Seq::empty()
    }
}

/// What redraws the line: return to the first column and erase it, then
/// the prompt, the line, and a move back to the cursor.
pub open spec fn redraw_seq(prompt: Seq<u8>, st: (Seq<u8>, int)) -> Seq<u8> {
    seq![0x0du8, 0x1bu8, 0x5bu8, 0x4bu8] + prompt + st.0 + cursor_back_seq(
        (st.0.len() - st.1) as nat,
    )
}

/// A key that completes the line.
pub open spec fn is_enter(c: u8) -> bool {
    c == KEY_LF || c == KEY_CR
}

/// A key that erases the byte before the cursor.
pub open spec fn is_erase(c: u8) -> bool {
    c == KEY_BS || c == KEY_DEL
}

/// Whether key `c` does anything on a line of `len` bytes; every other key
/// is ignored.
pub open spec fn is_bound_key(c: u8, len: int) -> bool {
    ||| is_enter(c)
    ||| is_erase(c)
    ||| c == KEY_ESC
    ||| c == KEY_CTRL_A
    ||| c == KEY_CTRL_E
    ||| c == KEY_CTRL_U
    ||| c == KEY_CTRL_W
    ||| is_printable(c)
    ||| (c == KEY_CTRL_D && len == 0)
}

/// What a key asks of the caller once the editor has handled it.
pub enum KeyOutcome {
    /// Write these bytes to the terminal and read the next key.
    Continue(Vec<u8>),
    /// Read the two bytes of an escape sequence and pass them to
    /// [`LineEditor::handle_escape`].
    Escape,
    /// The line is complete: write these bytes and hand back the line.
    Submit(Vec<u8>),
    /// End of input on an empty line: write these bytes and hand back nothing.
    EndOfInput(Vec<u8>),
}

/// The bytes of a carriage return and line feed.
fn crlf_bytes() -> (out: Vec<u8>)
    ensures
        out@ == crlf(),
{
    let mut out: Vec<u8> = Vec::new();
    out.push(KEY_CR);
    out.push(KEY_LF);
    assert(out@ =~= crlf());
    out
}

/// The editor: the line in a fixed buffer, its length, the cursor, and the
/// prompt shown before the line.
#[derive(Debug, Clone, Copy)]
pub struct LineEditor<'a> {
    buf: [u8; 256],
    len: usize,
    cursor: usize,
    prompt: &'a str,
}

impl<'a> View for LineEditor<'a> {
    type V = (Seq<u8>, int);

    /// The line and the cursor's position in it.
    closed spec fn view(&self) -> (Seq<u8>, int) {
        (self.buf@.take(self.len as int), self.cursor as int)
    }
}

impl<'a> LineEditor<'a> {
    /// The prompt shown before the line.
    pub closed spec fn prompt(&self) -> &'a str {
        self.prompt
    }

    /// The prompt's bytes.
    pub open spec fn prompt_bytes(&self) -> Seq<u8> {
        self.prompt().spec_bytes()
    }

    /// All bytes of the editor's buffer, the line and what lies past it.
    pub closed spec fn storage(&self) -> Seq<u8> {
        self.buf@
    }

    /// Well-formedness: the line fits the buffer, the cursor lies within the
    /// line, and the line holds printable bytes only.
    pub closed spec fn wf(&self) -> bool {
        &&& self.len <= LINE_MAX
        &&& self.cursor <= self.len
        &&& all_printable(self.buf@.take(self.len as int))
    }

    /// An empty line with an empty prompt.
    pub fn new() -> (r: Self)
        ensures
            r.wf(),
            r@.0 == Seq::<u8>::empty(),
            r@.1 == 0,
            r.prompt_bytes() == Seq::<u8>::empty(),
            r.prompt() == "",
            r.storage() == Seq::new(LINE_MAX as nat, |i: int| 0u8),
    {
        let r = LineEditor { buf: [0u8; 256], len: 0, cursor: 0, prompt: "" };
        proof {
            reveal_strlit("");
            assert(r.buf@.take(0) =~= Seq::<u8>::empty());
            assert(r.storage() =~= Seq::new(LINE_MAX as nat, |i: int| 0u8));
        }
        r
    }

    /// Inserts `c` at the cursor, shifting the rest of the line right, and
    /// moves the cursor past it. Returns the bytes that redraw the line.
    pub fn insert(&mut self, c: u8) -> (out: Vec<u8>)
        requires
            old(self).wf(),
            old(self)@.0.len() < LINE_MAX,
            is_printable(c),
        ensures
            final(self).wf(),
            final(self)@ == after_insert(old(self)@, c),
            final(self).prompt() == old(self).prompt(),
            out@ == redraw_seq(final(self).prompt_bytes(), final(self)@),
    {
        let mut i: usize = self.len;
        while i > self.cursor
            invariant
                self.cursor <= i <= self.len,
                self.len < LINE_MAX,
                self.buf@.len() == LINE_MAX,
                self.len == old(self).len,
                self.cursor == old(self).cursor,
                self.prompt == old(self).prompt,
                forall|j: int| 0 <= j <= i ==> self.buf@[j] == old(self).buf@[j],
                forall|j: int| i < j <= self.len ==> self.buf@[j] == old(self).buf@[j - 1],
            decreases i,
        {
            self.buf[i] = self.buf[i - 1];
            i = i - 1;
        }
        self.buf[self.cursor] = c;
        self.len = self.len + 1;
        self.cursor = self.cursor + 1;
        proof {
            let line = self.buf@.take(self.len as int);
            assert(line =~= after_insert(old(self)@, c).0);
            assert forall|j: int| 0 <= j < line.len() implies is_printable(#[trigger] line[j]) by {
                if j < self.cursor - 1 {
                    assert(old(self).buf@.take(old(self).len as int)[j] == line[j]);
                } else if j > self.cursor - 1 {
                    assert(old(self).buf@.take(old(self).len as int)[j - 1] == line[j]);
                }
            }
        }
        self.redraw()
    }

    /// Erases the byte before the cursor, shifting the rest of the line left.
    /// Returns the bytes that redraw the line, or nothing when the cursor is
    /// at the start.
    pub fn backspace(&mut self) -> (out: Vec<u8>)
        requires
            old(self).wf(),
        ensures
            final(self).wf(),
            final(self)@ == after_backspace(old(self)@),
            final(self).prompt() == old(self).prompt(),
            out@ == (if old(self)@.1 > 0 {
                redraw_seq(final(self).prompt_bytes(), final(self)@)
            } else {
                Seq::<u8>::empty()
            }),
            old(self)@.1 == 0 ==> *final(self) == *old(self),
    {
        if self.cursor == 0 {
            return Vec::new();
        }
        let mut i: usize = self.cursor - 1;
        while i < self.len - 1
            invariant
                self.cursor - 1 <= i <= self.len - 1,
                0 < self.cursor <= self.len <= LINE_MAX,
                self.buf@.len() == LINE_MAX,
                self.len == old(self).len,
                self.cursor == old(self).cursor,
                self.prompt == old(self).prompt,
                forall|j: int| 0 <= j < self.cursor - 1 ==> self.buf@[j] == old(self).buf@[j],
                forall|j: int| self.cursor - 1 <= j < i ==> self.buf@[j] == old(self).buf@[j + 1],
                forall|j: int| i <= j < LINE_MAX ==> self.buf@[j] == old(self).buf@[j],
            decreases self.len - 1 - i,
        {
            self.buf[i] = self.buf[i + 1];
            i = i + 1;
        }
        self.cursor = self.cursor - 1;
        self.len = self.len - 1;
        proof {
            let line = self.buf@.take(self.len as int);
            let old_line = old(self).buf@.take(old(self).len as int);
            assert(line =~= after_backspace(old(self)@).0);
            assert forall|j: int| 0 <= j < line.len() implies is_printable(#[trigger] line[j]) by {
                if j < self.cursor {
                    assert(old_line[j] == line[j]);
                } else {
                    assert(old_line[j + 1] == line[j]);
                }
            }
        }
        self.redraw()
    }

    /// Erases everything before the cursor and moves the cursor to the start.
    /// Returns the bytes that redraw the line.
    pub fn kill_line(&mut self) -> (out: Vec<u8>)
        requires
            old(self).wf(),
        ensures
            final(self).wf(),
            final(self)@ == after_kill_line(old(self)@),
            final(self).prompt() == old(self).prompt(),
            out@ == redraw_seq(final(self).prompt_bytes(), final(self)@),
    {
        let start: usize = self.cursor;
        self.remove_range(0, start);
        self.redraw()
    }

    /// Erases the word before the cursor, together with the spaces between
    /// it and the cursor. Returns the bytes that redraw the line.
    pub fn kill_word(&mut self) -> (out: Vec<u8>)
        requires
            old(self).wf(),
        ensures
            final(self).wf(),
            final(self)@ == after_kill_word(old(self)@),
            final(self).prompt() == old(self).prompt(),
            out@ == redraw_seq(final(self).prompt_bytes(), final(self)@),
    {
        let ghost line = self@.0;
        let mut i: usize = self.cursor;
        while i > 0 && self.buf[i - 1] == 0x20
            invariant
                i <= self.cursor <= self.len <= LINE_MAX,
                self.buf@.len() == LINE_MAX,
                line == self.buf@.take(self.len as int),
                skip_spaces_back(line, i as int) == skip_spaces_back(line, self.cursor as int),
            decreases i,
        {
            i = i - 1;
        }
        assert(skip_spaces_back(line, i as int) == i);
        let ghost spaces = i as int;
        while i > 0 && self.buf[i - 1] != 0x20
            invariant
                i <= self.cursor <= self.len <= LINE_MAX,
                self.buf@.len() == LINE_MAX,
                line == self.buf@.take(self.len as int),
                skip_word_back(line, i as int) == skip_word_back(line, spaces),
            decreases i,
        {
            i = i - 1;
        }
        assert(skip_word_back(line, i as int) == i);
        let cursor: usize = self.cursor;
        self.remove_range(i, cursor);
        self.redraw()
    }

    /// Starts a new, empty line shown after `prompt`.
    pub fn begin(&mut self, prompt: &'a str)
        requires
            old(self).wf(),
        ensures
            final(self).wf(),
            final(self)@ == (Seq::<u8>::empty(), 0int),
            final(self).prompt() == prompt,
            final(self).prompt_bytes() == prompt.spec_bytes(),
            final(self).storage() == old(self).storage(),
    {
        self.len = 0;
        self.cursor = 0;
        self.prompt = prompt;
        assert(self.buf@.take(0) =~= Seq::<u8>::empty());
    }

    /// The line as it stands.
    pub fn text(&self) -> (out: Vec<u8>)
        requires
            self.wf(),
        ensures
            out@ == self@.0,
    {
        let mut out: Vec<u8> = Vec::new();
        let mut j: usize = 0;
        while j < self.len
            invariant
                j <= self.len <= LINE_MAX,
                self.buf@.len() == LINE_MAX,
                out@ == self.buf@.take(j as int),
            decreases self.len - j,
        {
            out.push(self.buf[j]);
            j = j + 1;
            assert(out@ =~= self.buf@.take(j as int));
        }
        out
    }

    /// The length of the line.
    pub fn len(&self) -> (n: usize)
        requires
            self.wf(),
        ensures
            n == self@.0.len(),
    {
        self.len
    }

    /// The cursor's position in the line.
    pub fn cursor(&self) -> (n: usize)
        requires
            self.wf(),
        ensures
            n == self@.1,
    {
        self.cursor
    }

    /// Handles one key read from the console and says what the caller does
    /// next. A printable key on a full line is outside the contract.
    pub fn handle_key(&mut self, c: u8) -> (r: KeyOutcome)
        requires
            old(self).wf(),
            is_printable(c) ==> old(self)@.0.len() < LINE_MAX,
        ensures
            final(self).wf(),
            final(self).prompt() == old(self).prompt(),
            is_enter(c) ==> (r matches KeyOutcome::Submit(out) && out@ == crlf() && *final(self)
                == *old(self)),
            is_erase(c) ==> (r matches KeyOutcome::Continue(out) && final(self)@ == after_backspace(
                old(self)@,
            ) && out@ == (if old(self)@.1 > 0 {
                redraw_seq(final(self).prompt_bytes(), final(self)@)
            } else {
                Seq::<u8>::empty()
            })),
            is_erase(c) && old(self)@.1 == 0 ==> *final(self) == *old(self),
            c == KEY_ESC ==> (r is Escape && *final(self) == *old(self)),
            c == KEY_CTRL_A ==> (r matches KeyOutcome::Continue(out) && final(self)@ == after_start(
                old(self)@,
            ) && out@ == redraw_seq(final(self).prompt_bytes(), final(self)@) && final(self).storage()
                == old(self).storage()),
            c == KEY_CTRL_E ==> (r matches KeyOutcome::Continue(out) && final(self)@ == after_end(
                old(self)@,
            ) && out@ == redraw_seq(final(self).prompt_bytes(), final(self)@) && final(self).storage()
                == old(self).storage()),
            c == KEY_CTRL_U ==> (r matches KeyOutcome::Continue(out) && final(self)@
                == after_kill_line(old(self)@) && out@ == redraw_seq(
                final(self).prompt_bytes(),
                final(self)@,
            )),
            c == KEY_CTRL_W ==> (r matches KeyOutcome::Continue(out) && final(self)@
                == after_kill_word(old(self)@) && out@ == redraw_seq(
                final(self).prompt_bytes(),
                final(self)@,
            )),
            is_printable(c) ==> (r matches KeyOutcome::Continue(out) && final(self)@
                == after_insert(old(self)@, c) && out@ == redraw_seq(
                final(self).prompt_bytes(),
                final(self)@,
            )),
            c == KEY_CTRL_D && old(self)@.0.len() == 0 ==> (r matches KeyOutcome::EndOfInput(out)
                && out@ == crlf() && *final(self) == *old(self)),
            !is_bound_key(c, old(self)@.0.len() as int) ==> (r matches KeyOutcome::Continue(out)
                && out@ == Seq::<u8>::empty() && *final(self) == *old(self)),
    {
        if c == KEY_LF || c == KEY_CR {
            KeyOutcome::Submit(crlf_bytes())
        } else if c == KEY_BS || c == KEY_DEL {
            KeyOutcome::Continue(self.backspace())
        } else if c == KEY_ESC {
            KeyOutcome::Escape
        } else if c == KEY_CTRL_A {
            KeyOutcome::Continue(self.move_to_start())
        } else if c == KEY_CTRL_E {
            KeyOutcome::Continue(self.move_to_end())
        } else if c == KEY_CTRL_U {
            KeyOutcome::Continue(self.kill_line())
        } else if c == KEY_CTRL_W {
            KeyOutcome::Continue(self.kill_word())
        } else if 0x20 <= c && c <= 0x7e {
            KeyOutcome::Continue(self.insert(c))
        } else if c == KEY_CTRL_D && self.len == 0 {
            KeyOutcome::EndOfInput(crlf_bytes())
        } else {
            KeyOutcome::Continue(Vec::new())
        }
    }

    /// Moves the cursor one byte left, if it is not at the start. Returns
    /// the escape sequence that moves the terminal cursor along, or nothing.
    pub fn move_left(&mut self) -> (out: Vec<u8>)
        requires
            old(self).wf(),
        ensures
            final(self).wf(),
            final(self)@ == after_left(old(self)@),
            final(self).prompt() == old(self).prompt(),
            out@ == (if old(self)@.1 > 0 {
                cursor_left_seq()
            } else {
                Seq::<u8>::empty()
            }),
            final(self).storage() == old(self).storage(),
            old(self)@.1 == 0 ==> *final(self) == *old(self),
    {
        let mut out: Vec<u8> = Vec::new();
        if self.cursor > 0 {
            self.cursor = self.cursor - 1;
            out.push(0x1b);
            out.push(0x5b);
            out.push(0x44);
            assert(out@ =~= cursor_left_seq());
        }
        out
    }

    /// Moves the cursor one byte right, if it is not at the end. Returns
    /// the escape sequence that moves the terminal cursor along, or nothing.
    pub fn move_right(&mut self) -> (out: Vec<u8>)
        requires
            old(self).wf(),
        ensures
            final(self).wf(),
            final(self)@ == after_right(old(self)@),
            final(self).prompt() == old(self).prompt(),
            out@ == (if old(self)@.1 < old(self)@.0.len() {
                cursor_right_seq()
            } else {
                Seq::<u8>::empty()
            }),
            final(self).storage() == old(self).storage(),
            old(self)@.1 == old(self)@.0.len() ==> *final(self) == *old(self),
    {
        let mut out: Vec<u8> = Vec::new();
        if self.cursor < self.len {
            self.cursor = self.cursor + 1;
            out.push(0x1b);
            out.push(0x5b);
            out.push(0x43);
            assert(out@ =~= cursor_right_seq());
        }
        out
    }

    /// Moves the cursor to the start of the line. Returns the bytes that
    /// redraw the line.
    pub fn move_to_start(&mut self) -> (out: Vec<u8>)
        requires
            old(self).wf(),
        ensures
            final(self).wf(),
            final(self)@ == after_start(old(self)@),
            final(self).prompt() == old(self).prompt(),
            out@ == redraw_seq(final(self).prompt_bytes(), final(self)@),
            final(self).storage() == old(self).storage(),
    {
        self.cursor = 0;
        self.redraw()
    }

    /// Moves the cursor to the end of the line. Returns the bytes that
    /// redraw the line.
    pub fn move_to_end(&mut self) -> (out: Vec<u8>)
        requires
            old(self).wf(),
        ensures
            final(self).wf(),
            final(self)@ == after_end(old(self)@),
            final(self).prompt() == old(self).prompt(),
            out@ == redraw_seq(final(self).prompt_bytes(), final(self)@),
            final(self).storage() == old(self).storage(),
    {
        self.cursor = self.len;
        self.redraw()
    }

    /// Handles the two bytes that follow an escape: `[D` moves left, `[C`
    /// moves right, anything else is ignored. Returns the bytes to write.
    pub fn handle_escape(&mut self, seq: [u8; 2]) -> (out: Vec<u8>)
        requires
            old(self).wf(),
        ensures
            final(self).wf(),
            final(self).prompt() == old(self).prompt(),
            seq@ == seq![0x5bu8, 0x44u8] ==> final(self)@ == after_left(old(self)@) && out@ == (
            if old(self)@.1 > 0 {
                cursor_left_seq()
            } else {
                Seq::<u8>::empty()
            }),
            seq@ == seq![0x5bu8, 0x43u8] ==> final(self)@ == after_right(old(self)@) && out@ == (
            if old(self)@.1 < old(self)@.0.len() {
                cursor_right_seq()
            } else {
                Seq::<u8>::empty()
            }),
            final(self).storage() == old(self).storage(),
            seq@ != seq![0x5bu8, 0x44u8] && seq@ != seq![0x5bu8, 0x43u8] ==> *final(self) == *old(
                self,
            ) && out@ == Seq::<u8>::empty(),
    {
        let first: u8 = seq[0];
        let second: u8 = seq[1];
        proof {
            assert(seq@ =~= seq![first, second]);
        }
        if first == 0x5b && second == 0x44 {
            self.move_left()
        } else if first == 0x5b && second == 0x43 {
            self.move_right()
        } else {
            Vec::new()
        }
    }

    /// Removes the bytes in `[from, to)` of the line, where `to` is the
    /// cursor, and leaves the cursor at `from`.
    fn remove_range(&mut self, from: usize, to: usize)
        requires
            old(self).wf(),
            from <= to,
            to == old(self).cursor,
        ensures
            final(self).wf(),
            final(self)@ == (
                old(self)@.0.take(from as int) + old(self)@.0.skip(to as int),
                from as int,
            ),
            final(self).prompt == old(self).prompt,
    {
        let gap: usize = to - from;
        let mut k: usize = to;
        while k < self.len
            invariant
                to <= k <= self.len <= LINE_MAX,
                from <= to,
                gap == to - from,
                self.buf@.len() == LINE_MAX,
                self.len == old(self).len,
                self.cursor == old(self).cursor,
                self.prompt == old(self).prompt,
                forall|j: int| 0 <= j < from ==> self.buf@[j] == old(self).buf@[j],
                forall|j: int| from <= j < k - gap ==> self.buf@[j] == old(self).buf@[j + gap],
                forall|j: int| k - gap <= j < LINE_MAX ==> self.buf@[j] == old(self).buf@[j],
            decreases self.len - k,
        {
            self.buf[k - gap] = self.buf[k];
            k = k + 1;
        }
        self.len = self.len - gap;
        self.cursor = from;
        proof {
            let line = self.buf@.take(self.len as int);
            let old_line = old(self).buf@.take(old(self).len as int);
            assert(line =~= old_line.take(from as int) + old_line.skip(to as int));
            assert forall|j: int| 0 <= j < line.len() implies is_printable(#[trigger] line[j]) by {
                if j < from {
                    assert(old_line[j] == line[j]);
                } else {
                    assert(old_line[j + gap] == line[j]);
                }
            }
        }
    }

    /// The bytes that redraw the line with the prompt and put the terminal
    /// cursor back over the editor's cursor.
    pub fn redraw(&self) -> (out: Vec<u8>)
        requires
            self.wf(),
        ensures
            out@ == redraw_seq(self.prompt_bytes(), self@),
    {
        let mut out: Vec<u8> = Vec::new();
        out.push(0x0d);
        out.push(0x1b);
        out.push(0x5b);
        out.push(0x4b);
        let ghost head = out@;
        let p: &[u8] = self.prompt.as_bytes();
        let mut i: usize = 0;
        while i < p.len()
            invariant
                i <= p@.len(),
                out@ == head + p@.take(i as int),
            decreases p@.len() - i,
        {
            out.push(p[i]);
            i = i + 1;
            assert(out@ =~= head + p@.take(i as int));
        }
        assert(p@.take(p@.len() as int) =~= p@);
        let ghost with_prompt = out@;
        let mut j: usize = 0;
        while j < self.len
            invariant
                j <= self.len,
                self.len <= LINE_MAX,
                self.buf@.len() == LINE_MAX,
                out@ == with_prompt + self.buf@.take(j as int),
            decreases self.len - j,
        {
            out.push(self.buf[j]);
            j = j + 1;
            assert(out@ =~= with_prompt + self.buf@.take(j as int));
        }
        let back: usize = self.len - self.cursor;
        let ghost with_line = out@;
        if back > 0 {
            out.push(0x1b);
            out.push(0x5b);
            push_decimal(&mut out, back);
            out.push(0x44);
        }
        assert(out@ =~= with_line + cursor_back_seq(back as nat));
        assert(out@ =~= redraw_seq(self.prompt_bytes(), self@));
        out
    }
}

/// Every well-formed editor holds a line of at most `LINE_MAX` printable
/// bytes with the cursor inside it; every operation keeps it so.
pub proof fn lemma_editor_invariant(e: LineEditor)
    requires
        e.wf(),
    ensures
        0 <= e@.1 <= e@.0.len() <= LINE_MAX,
        all_printable(e@.0),
{
}

/// The run of spaces that ends at `i` is what `skip_spaces_back` skips,
/// and it cannot be extended to the left.
proof fn lemma_skip_spaces_back(line: Seq<u8>, i: int)
    requires
        0 <= i <= line.len(),
    ensures
        0 <= skip_spaces_back(line, i) <= i,
        forall|j: int| skip_spaces_back(line, i) <= j < i ==> line[j] == 0x20,
        skip_spaces_back(line, i) == 0 || line[skip_spaces_back(line, i) - 1] != 0x20,
    decreases i,
{
    if i > 0 && line[i - 1] == 0x20 {
        lemma_skip_spaces_back(line, i - 1);
    }
}

/// The run of non-spaces that ends at `i` is what `skip_word_back` skips,
/// and it cannot be extended to the left.
proof fn lemma_skip_word_back(line: Seq<u8>, i: int)
    requires
        0 <= i <= line.len(),
    ensures
        0 <= skip_word_back(line, i) <= i,
        forall|j: int| skip_word_back(line, i) <= j < i ==> line[j] != 0x20,
        skip_word_back(line, i) == 0 || line[skip_word_back(line, i) - 1] == 0x20,
    decreases i,
{
    if i > 0 && line[i - 1] != 0x20 {
        lemma_skip_word_back(line, i - 1);
    }
}

/// Ctrl-W erases exactly the spaces just before the cursor and the word
/// before them: the erased span `[w, pos)` is a run of non-spaces followed
/// by a run of spaces, neither of which could reach further left.
pub proof fn lemma_kill_word_span(line: Seq<u8>, pos: int)
    requires
        0 <= pos <= line.len(),
    ensures
        0 <= word_start(line, pos) <= skip_spaces_back(line, pos) <= pos,
        forall|j: int| skip_spaces_back(line, pos) <= j < pos ==> line[j] == 0x20,
        forall|j: int|
            word_start(line, pos) <= j < skip_spaces_back(line, pos) ==> line[j] != 0x20,
        word_start(line, pos) == 0 || line[word_start(line, pos) - 1] == 0x20,
        skip_spaces_back(line, pos) == 0 || line[skip_spaces_back(line, pos) - 1] != 0x20,
{
    lemma_skip_spaces_back(line, pos);
    lemma_skip_word_back(line, skip_spaces_back(line, pos));
}

/// Backspace undoes an insert: inserting a byte and erasing it again gives
/// back the same line and cursor.
pub proof fn lemma_backspace_undoes_insert(st: (Seq<u8>, int), c: u8)
    requires
        0 <= st.1 <= st.0.len(),
    ensures
        after_backspace(after_insert(st, c)) == st,
{
    let ins = after_insert(st, c);
    assert(ins.0.take(ins.1 - 1) + ins.0.skip(ins.1) =~= st.0);
}

/// The editing keys never change the text to the right of the cursor:
/// after an insert, a backspace, Ctrl-U or Ctrl-W, what follows the cursor
/// is what followed it before.
pub proof fn lemma_edits_keep_text_after_cursor(st: (Seq<u8>, int), c: u8)
    requires
        0 <= st.1 <= st.0.len(),
    ensures
        after_insert(st, c).0.skip(after_insert(st, c).1) == st.0.skip(st.1),
        after_backspace(st).0.skip(after_backspace(st).1) == st.0.skip(st.1),
        after_kill_line(st).0.skip(after_kill_line(st).1) == st.0.skip(st.1),
        after_kill_word(st).0.skip(after_kill_word(st).1) == st.0.skip(st.1),
{
    let ins = after_insert(st, c);
    assert(ins.0.skip(ins.1) =~= st.0.skip(st.1));
    if st.1 > 0 {
        let bs = after_backspace(st);
        assert(bs.0.skip(bs.1) =~= st.0.skip(st.1));
    }
    let kl = after_kill_line(st);
    assert(kl.0.skip(kl.1) =~= st.0.skip(st.1));
    lemma_kill_word_span(st.0, st.1);
    let kw = after_kill_word(st);
    assert(kw.0.skip(kw.1) =~= st.0.skip(st.1));
}

/// Cursor movement never changes the line and keeps the cursor inside it;
/// a step left and a step right undo each other where both can move.
pub proof fn lemma_moves_keep_line(st: (Seq<u8>, int))
    requires
        0 <= st.1 <= st.0.len(),
    ensures
        after_left(st).0 == st.0 && 0 <= after_left(st).1 <= st.0.len(),
        after_right(st).0 == st.0 && 0 <= after_right(st).1 <= st.0.len(),
        after_start(st).0 == st.0 && after_start(st).1 == 0,
        after_end(st).0 == st.0 && after_end(st).1 == st.0.len(),
        st.1 > 0 ==> after_right(after_left(st)) == st,
        st.1 < st.0.len() ==> after_left(after_right(st)) == st,
{
}

/// Erasing to the start of the line twice is the same as doing it once.
pub proof fn lemma_kill_line_idempotent(st: (Seq<u8>, int))
    requires
        0 <= st.1 <= st.0.len(),
    ensures
        after_kill_line(after_kill_line(st)) == after_kill_line(st),
{
    assert(st.0.skip(st.1).skip(0) =~= st.0.skip(st.1));
}

/// Typing a printable key puts exactly that byte at the cursor: the line
/// grows by one, the bytes before the cursor stay where they were, the
/// typed byte follows them, the bytes from the cursor on move one place
/// right, and the cursor ends just past the typed byte.
pub proof fn lemma_insert_places_key(st: (Seq<u8>, int), c: u8)
    requires
        0 <= st.1 <= st.0.len(),
    ensures
        after_insert(st, c).0.len() == st.0.len() + 1,
        after_insert(st, c).1 == st.1 + 1,
        after_insert(st, c).0[st.1] == c,
        forall|i: int| 0 <= i < st.1 ==> after_insert(st, c).0[i] == st.0[i],
        forall|i: int| st.1 <= i < st.0.len() ==> after_insert(st, c).0[i + 1] == st.0[i],
{
}

/// Backspace removes exactly the byte before the cursor and moves the
/// cursor back by one; at the start of the line it changes nothing.
pub proof fn lemma_backspace_removes_one(st: (Seq<u8>, int))
    requires
        0 <= st.1 <= st.0.len(),
    ensures
        st.1 == 0 ==> after_backspace(st) == st,
        st.1 > 0 ==> {
            &&& after_backspace(st).0.len() == st.0.len() - 1
            &&& after_backspace(st).1 == st.1 - 1
            &&& forall|i: int| 0 <= i < st.1 - 1 ==> after_backspace(st).0[i] == st.0[i]
            &&& forall|i: int| st.1 <= i < st.0.len() ==> after_backspace(st).0[i - 1] == st.0[i]
        },
{
}

/// Ctrl-U leaves the cursor at the start and exactly the text that followed
/// the cursor as the line, whatever the cursor's position.
pub proof fn lemma_kill_line_keeps_only_tail(st: (Seq<u8>, int))
    requires
        0 <= st.1 <= st.0.len(),
    ensures
        after_kill_line(st).1 == 0,
        after_kill_line(st).0.len() == st.0.len() - st.1,
        forall|i: int| 0 <= i < st.0.len() - st.1 ==> after_kill_line(st).0[i] == st.0[st.1 + i],
{
}

/// Ctrl-W removes one span `[w, pos)` ending at the cursor and leaves the
/// cursor at `w`, where the span is a word followed by the spaces after it:
/// - the line afterwards is the line before with that span cut out;
/// - within the span, once a space occurs only spaces follow;
/// - the span starts at the start of the line or just after a space;
/// - a span that does not start the line holds at least one non-space.
/// These fix `w` for every line and cursor.
pub proof fn lemma_kill_word_removes_word(st: (Seq<u8>, int))
    requires
        0 <= st.1 <= st.0.len(),
    ensures
        0 <= after_kill_word(st).1 <= st.1,
        after_kill_word(st).0.len() == st.0.len() - (st.1 - after_kill_word(st).1),
        forall|i: int|
            0 <= i < after_kill_word(st).1 ==> after_kill_word(st).0[i] == st.0[i],
        forall|i: int|
            st.1 <= i < st.0.len() ==> after_kill_word(st).0[i - (st.1 - after_kill_word(st).1)]
                == st.0[i],
        forall|j: int, k: int|
            after_kill_word(st).1 <= j <= k < st.1 && st.0[j] == 0x20 ==> st.0[k] == 0x20,
        after_kill_word(st).1 == 0 || st.0[after_kill_word(st).1 - 1] == 0x20,
        after_kill_word(st).1 > 0 ==> exists|j: int|
            after_kill_word(st).1 <= j < st.1 && st.0[j] != 0x20,
{
    lemma_kill_word_span(st.0, st.1);
    let w = word_start(st.0, st.1);
    let sp = skip_spaces_back(st.0, st.1);
    assert(after_kill_word(st).1 == w);
    if w > 0 {
        // the run of spaces cannot reach the start here, so the word is not empty
        assert(sp > 0);
        assert(st.0[sp - 1] != 0x20);
        assert(skip_word_back(st.0, sp) < sp);
        assert(w <= w < st.1 && st.0[w] != 0x20);
    }
}

/// A step left moves the cursor back by exactly one, a step right forward
/// by exactly one, where they can; at the edge they change nothing. Moving
/// to the start puts the cursor at 0, moving to the end at the line's
/// length. None of them changes the line.
pub proof fn lemma_moves_step_by_one(st: (Seq<u8>, int))
    requires
        0 <= st.1 <= st.0.len(),
    ensures
        st.1 > 0 ==> after_left(st) == (st.0, st.1 - 1),
        st.1 == 0 ==> after_left(st) == st,
        st.1 < st.0.len() ==> after_right(st) == (st.0, st.1 + 1),
        st.1 == st.0.len() ==> after_right(st) == st,
        after_start(st) == (st.0, 0int),
        after_end(st) == (st.0, st.0.len() as int),
{
}

/// What a redraw writes, read back piece by piece: the four bytes
/// `\r ESC [ K` that return to the first column and clear it, then the
/// whole prompt, whatever the cursor, then the whole line; then nothing more
/// when the cursor is at the end, and otherwise `ESC [`, a decimal numeral
/// for the number of bytes after the cursor, and `D`.
pub proof fn lemma_redraw_layout(prompt: Seq<u8>, st: (Seq<u8>, int))
    requires
        0 <= st.1 <= st.0.len(),
    ensures
        redraw_seq(prompt, st).subrange(0, 4) == seq![0x0du8, 0x1bu8, 0x5bu8, 0x4bu8],
        redraw_seq(prompt, st).subrange(4, 4 + prompt.len() as int) == prompt,
        redraw_seq(prompt, st).subrange(4 + prompt.len() as int, 4 + prompt.len() as int + st.0.len() as int)
            == st.0,
        st.1 == st.0.len() ==> redraw_seq(prompt, st).len() == 4 + prompt.len() as int + st.0.len() as int,
        st.1 < st.0.len() ==> {
            let tail = redraw_seq(prompt, st).skip(4 + prompt.len() as int + st.0.len() as int);
            &&& tail.len() >= 4
            &&& tail[0] == 0x1b
            &&& tail[1] == 0x5b
            &&& tail.last() == 0x44
            &&& forall|i: int| 2 <= i < tail.len() - 1 ==> 0x30 <= #[trigger] tail[i] <= 0x39
            &&& tail[2] != 0x30
            &&& digits_value(tail.subrange(2, tail.len() - 1)) == st.0.len() - st.1
        },
{
    let r = redraw_seq(prompt, st);
    let head = seq![0x0du8, 0x1bu8, 0x5bu8, 0x4bu8];
    let n: nat = (st.0.len() - st.1) as nat;
    assert(r == head + prompt + st.0 + cursor_back_seq(n));
    assert(r.subrange(0, 4) =~= head);
    assert(r.subrange(4, 4 + prompt.len() as int) =~= prompt);
    assert(r.subrange(4 + prompt.len() as int, 4 + prompt.len() as int + st.0.len() as int) =~= st.0);
    if st.1 < st.0.len() {
        lemma_decimal_denotes(n);
        let tail = r.skip(4 + prompt.len() as int + st.0.len() as int);
        assert(tail =~= seq![0x1bu8, 0x5bu8] + decimal(n) + seq![0x44u8]);
        assert(tail.subrange(2, tail.len() - 1) =~= decimal(n));
        assert forall|i: int| 2 <= i < tail.len() - 1 implies 0x30 <= #[trigger] tail[i] <= 0x39 by {
            assert(tail[i] == decimal(n)[i - 2]);
        }
        assert(tail[2] == decimal(n)[0]);
    } else {
        assert(r =~= head + prompt + st.0);
    }
}

/// A step left and a step right undo each other on the whole editor,
/// buffer, line, cursor and prompt alike, wherever both steps can move:
/// `e1` is `e0` after one step and `e2` is `e1` after the opposite step, as
/// `move_left` and `move_right` state them.
pub proof fn lemma_left_right_restore(e0: LineEditor, e1: LineEditor, e2: LineEditor)
    requires
        e0.wf(),
        e1.wf(),
        e2.wf(),
        e1.storage() == e0.storage(),
        e1.prompt() == e0.prompt(),
        e2.storage() == e1.storage(),
        e2.prompt() == e1.prompt(),
        (e0@.1 > 0 && e1@ == after_left(e0@) && e2@ == after_right(e1@)) || (e0@.1
            < e0@.0.len() && e1@ == after_right(e0@) && e2@ == after_left(e1@)),
    ensures
        e2 == e0,
{
    assert(e2.buf =~= e0.buf);
    assert(e2.buf@.take(e2.len as int).len() == e2.len);
    assert(e0.buf@.take(e0.len as int).len() == e0.len);
}

impl<'a> Default for LineEditor<'a> {
    fn default() -> (r: Self)
        ensures
            r.wf(),
            r@.0 == Seq::<u8>::empty(),
            r@.1 == 0,
            r.prompt_bytes() == Seq::<u8>::empty(),
            r.prompt() == "",
            r.storage() == Seq::new(LINE_MAX as nat, |i: int| 0u8),
    {
        Self::new()
    }
}

} // verus!
