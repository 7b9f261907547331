//! The chat line: typing, submitting, and the last few lines shown on screen.
use vstd::prelude::*;
use vstd::utf8::encode_utf8;

use crate::chars::{char_is_control, is_control, pop_char, push_char, str_chars, string_from_chars, trim, trim_chars};

verus! {

/// Number of lines the chat keeps.
pub const MAX_CHAT_LINES: usize = 6;

/// Longest input, in UTF-8 bytes, that still takes another character.
pub const MAX_INPUT_BYTES: usize = 72;

/// Length of the UTF-8 encoding of `s`, in bytes.
pub open spec fn byte_len(s: Seq<char>) -> int {
    encode_utf8(s).len() as int
}

/// Input after typing `text` into `input`: control characters are dropped, and a character is
/// taken only while the input is shorter than 72 bytes.
pub open spec fn typed(input: Seq<char>, text: Seq<char>) -> Seq<char>
    decreases text.len(),
{
    if text.len() == 0 {
        input
    } else {
        let next = if !is_control(text[0]) && byte_len(input) < 72 { input.push(text[0]) } else { input };
        typed(next, text.drop_first())
    }
}

proof fn lemma_encode_push(s: Seq<char>, c: char)
    ensures
        encode_utf8(s.push(c)) == encode_utf8(s) + vstd::utf8::encode_scalar(c as u32),
        vstd::utf8::encode_scalar(c as u32).len() <= 4,
    decreases s.len(),
{
    if s.len() > 0 {
        lemma_encode_push(s.drop_first(), c);
        assert(s.push(c).drop_first() == s.drop_first().push(c));
        assert(s.push(c)[0] == s[0]);
    } else {
        assert(s.push(c).drop_first() == s);
    }
}

proof fn lemma_encode_drop_last(s: Seq<char>)
    requires
        s.len() > 0,
    ensures
        encode_utf8(s.drop_last()).len() <= encode_utf8(s).len(),
{
    lemma_encode_push(s.drop_last(), s.last());
    assert(s.drop_last().push(s.last()) == s);
}

/// The last `n` entries of `s` (all of them when there are fewer).
pub open spec fn last_n<A>(s: Seq<A>, n: int) -> Seq<A> {
    if s.len() > n { s.skip(s.len() - n) } else { s }
}

#[derive(Clone, Debug)]
pub struct ChatLine {
    pub text: String,
    pub is_system: bool,
}

/// What the chat overlay shows.
#[derive(Clone, Debug, PartialEq, Eq)]
pub struct ChatVisualState {
    pub open: bool,
    pub input: String,
    pub lines: Vec<(String, bool)>,
}

#[derive(Debug)]
pub struct ChatState {
    open: bool,
    input: String,
    lines: Vec<ChatLine>,
}

pub open spec fn line_view(l: ChatLine) -> (Seq<char>, bool) {
    (l.text@, l.is_system)
}

impl ChatState {
    pub closed spec fn wf(&self) -> bool {
        self.lines@.len() <= 6 && byte_len(self.input@) <= 76
    }

    pub closed spec fn spec_open(&self) -> bool {
        self.open
    }

    pub closed spec fn spec_input(&self) -> Seq<char> {
        self.input@
    }

    /// The kept lines, oldest first: text and whether it is shown as a system line.
    pub closed spec fn spec_lines(&self) -> Seq<(Seq<char>, bool)> {
        self.lines@.map_values(|l: ChatLine| line_view(l))
    }

    pub fn new() -> (c: Self)
        ensures
            c.wf(),
            !c.spec_open(),
            c.spec_input().len() == 0,
            c.spec_lines().len() == 0,
    {
        let c = ChatState { open: false, input: String::new(), lines: Vec::new() };
        assert(encode_utf8(c.input@) == Seq::<u8>::empty());
        c
    }

    pub fn is_open(&self) -> (b: bool)
        ensures
            b == self.spec_open(),
    {
        self.open
    }

    /// Opens the chat with an empty input.
    pub fn open(&mut self)
        requires
            old(self).wf(),
        ensures
            final(self).wf(),
            final(self).spec_open(),
            final(self).spec_input().len() == 0,
            final(self).spec_lines() == old(self).spec_lines(),
    {
        self.open = true;
        self.input = String::new();
        assert(encode_utf8(self.input@) == Seq::<u8>::empty());
    }

    /// Opens the chat with "/" typed, ready for a command.
    pub fn open_with_slash(&mut self)
        requires
            old(self).wf(),
        ensures
            final(self).wf(),
            final(self).spec_open(),
            final(self).spec_input() == seq!['/'],
            final(self).spec_lines() == old(self).spec_lines(),
    {
        self.open = true;
        self.input = String::new();
        push_char(&mut self.input, '/');
        proof {
            assert(encode_utf8(Seq::<char>::empty()) == Seq::<u8>::empty());
            lemma_encode_push(Seq::<char>::empty(), '/');
            assert(Seq::<char>::empty().push('/') == self.input@);
        }
    }

    /// Closes the chat and drops the input.
    pub fn close(&mut self)
        requires
            old(self).wf(),
        ensures
            final(self).wf(),
            !final(self).spec_open(),
            final(self).spec_input().len() == 0,
            final(self).spec_lines() == old(self).spec_lines(),
    {
        self.open = false;
        self.input = String::new();
        assert(encode_utf8(self.input@) == Seq::<u8>::empty());
    }

    /// Types `text` into an open chat; a closed chat ignores it.
    pub fn append_text(&mut self, text: &str)
        requires
            old(self).wf(),
        ensures
            final(self).wf(),
            final(self).spec_open() == old(self).spec_open(),
            final(self).spec_input() == if old(self).spec_open() { typed(old(self).spec_input(), text@) } else { old(self).spec_input() },
            final(self).spec_lines() == old(self).spec_lines(),
    {
        if !self.open {
            return;
        }
        let chars = str_chars(text);
        let ghost start = self.input@;
        let mut i: usize = 0;
        assert(chars@.skip(0) == chars@);
        while i < chars.len()
            invariant
                chars@ == text@,
                i <= chars@.len(),
                typed(start, text@) == typed(self.input@, chars@.skip(i as int)),
                self.open == old(self).open,
                self.lines == old(self).lines,
                self.lines@.len() <= 6,
                byte_len(self.input@) <= 76,
            decreases chars@.len() - i,
        {
            let ch = chars[i];
            let ghost before = self.input@;
            assert(chars@.skip(i as int).drop_first() == chars@.skip(i + 1));
            assert(chars@.skip(i as int)[0] == ch);
            let n = self.input.as_str().len();
            if !char_is_control(ch) && n < MAX_INPUT_BYTES {
                push_char(&mut self.input, ch);
                proof {
                    lemma_encode_push(before, ch);
                }
            }
            assert(typed(before, chars@.skip(i as int)) == typed(self.input@, chars@.skip(i + 1)));
            i = i + 1;
        }
    }

    /// Deletes the last typed character of an open chat.
    pub fn backspace(&mut self)
        requires
            old(self).wf(),
        ensures
            final(self).wf(),
            final(self).spec_open() == old(self).spec_open(),
            final(self).spec_input() == if old(self).spec_open() && old(self).spec_input().len() > 0 {
                old(self).spec_input().drop_last()
            } else {
                old(self).spec_input()
            },
            final(self).spec_lines() == old(self).spec_lines(),
    {
        if self.open {
            let ghost before = self.input@;
            pop_char(&mut self.input);
            proof {
                if before.len() > 0 {
                    lemma_encode_drop_last(before);
                }
            }
        }
    }

    /// Sends the input of an open chat: the chat closes, and a non-empty trimmed input is
    /// returned and kept as the line "> " followed by it, a system line unless it is a command
    /// (starts with "/").
    pub fn submit(&mut self) -> (sent: Option<String>)
        requires
            old(self).wf(),
        ensures
            final(self).wf(),
            !old(self).spec_open() ==> sent is None && final(self).spec_open() == old(self).spec_open()
                && final(self).spec_input() == old(self).spec_input() && final(self).spec_lines() == old(self).spec_lines(),
            old(self).spec_open() ==> !final(self).spec_open() && final(self).spec_input().len() == 0,
            old(self).spec_open() && trim(old(self).spec_input()).len() == 0 ==> sent is None && final(self).spec_lines()
                == old(self).spec_lines(),
            old(self).spec_open() && trim(old(self).spec_input()).len() > 0 ==> {
                let t = trim(old(self).spec_input());
                &&& sent is Some
                &&& sent->0@ == t
                &&& final(self).spec_lines() == last_n(old(self).spec_lines().push((seq!['>', ' '] + t, t[0] != '/')), 6)
            },
    {
        if !self.open {
            return None;
        }
        let chars = str_chars(self.input.as_str());
        let trimmed = trim_chars(&chars);
        self.open = false;
        self.input = String::new();
        assert(encode_utf8(self.input@) == Seq::<u8>::empty());
        if trimmed.len() == 0 {
            return None;
        }
        let submitted = string_from_chars(&trimmed);
        let mut line = String::new();
        push_char(&mut line, '>');
        push_char(&mut line, ' ');
        let mut i: usize = 0;
        while i < trimmed.len()
            invariant
                i <= trimmed@.len(),
                line@ == seq!['>', ' '] + trimmed@.take(i as int),
            decreases trimmed@.len() - i,
        {
            push_char(&mut line, trimmed[i]);
            i = i + 1;
            assert(trimmed@.take(i as int) == trimmed@.take(i - 1).push(trimmed@[i - 1]));
        }
        assert(trimmed@.take(trimmed@.len() as int) == trimmed@);
        let is_system = trimmed[0] != '/';
        self.push_line(line, is_system);
        Some(submitted)
    }

    /// Adds a system line.
    pub fn push_system_line(&mut self, text: String)
        requires
            old(self).wf(),
        ensures
            final(self).wf(),
            final(self).spec_open() == old(self).spec_open(),
            final(self).spec_input() == old(self).spec_input(),
            final(self).spec_lines() == last_n(old(self).spec_lines().push((text@, true)), 6),
    {
        self.push_line(text, true);
    }

    /// What the overlay shows: open or not, the input, and the kept lines.
    pub fn visual_state(&self) -> (v: ChatVisualState)
        ensures
            v.open == self.spec_open(),
            v.input@ == self.spec_input(),
            v.lines@.len() == self.spec_lines().len(),
            forall|i: int| 0 <= i < v.lines@.len() ==> (#[trigger] v.lines@[i].0@, v.lines@[i].1) == self.spec_lines()[i],
    {
        let mut lines: Vec<(String, bool)> = Vec::new();
        let mut i: usize = 0;
        while i < self.lines.len()
            invariant
                i <= self.lines@.len(),
                lines@.len() == i,
                forall|j: int| 0 <= j < i ==> (#[trigger] lines@[j].0@, lines@[j].1) == line_view(self.lines@[j]),
            decreases self.lines@.len() - i,
        {
            let line = &self.lines[i];
            lines.push((line.text.clone(), line.is_system));
            i = i + 1;
        }
        ChatVisualState { open: self.open, input: self.input.clone(), lines }
    }

    /// Keeps `text` as the newest line, dropping the oldest beyond six.
    pub fn push_line(&mut self, text: String, is_system: bool)
        requires
            old(self).wf(),
        ensures
            final(self).wf(),
            final(self).spec_open() == old(self).spec_open(),
            final(self).spec_input() == old(self).spec_input(),
            final(self).spec_lines() == last_n(old(self).spec_lines().push((text@, is_system)), 6),
    {
        let ghost before = self.lines@;
        let line = ChatLine { text, is_system };
        self.lines.push(line);
        if self.lines.len() > MAX_CHAT_LINES {
            self.lines.remove(0);
        }
        proof {
            let pushed = before.push(line);
            assert(pushed.map_values(|l: ChatLine| line_view(l)) == before.map_values(|l: ChatLine| line_view(l)).push(
                line_view(line),
            ));
            if pushed.len() > 6 {
                assert(self.lines@ == pushed.skip(1));
                assert(self.lines@.map_values(|l: ChatLine| line_view(l)) == pushed.map_values(|l: ChatLine| line_view(l)).skip(1));
            }
        }
    }
}

} // verus!
