//! Character-level reader with position tracking and lookahead.
//!
//! Tracks the byte offset, the zero-indexed line, and the column (character
//! count on the current line). `\r\n` is consumed as a single newline; a bare
//! `\r` also counts as a newline.
use vstd::prelude::*;

use crate::diagnostic::Mark;
use crate::text::{
    char_len_utf8, char_width, chars_to_string, lemma_utf8_len_take_le, lemma_utf8_len_take_mono,
    lemma_utf8_len_take_step, str_byte_len, to_chars, utf8_len,
};

verus! {

/// Character-level reader over UTF-8 input with position tracking.
pub struct Reader {
    chars: Vec<char>,
    /// Index of the current character.
    pos: usize,
    /// Current byte offset.
    offset: usize,
    /// Current zero-indexed line number.
    line: u32,
    /// Current zero-indexed column (character count on this line).
    column: u32,
}

/// The largest input, in characters, whose line and column counters fit in `u32`.
pub open spec fn max_input_chars() -> nat {
    0x7FFF_FFFE
}

/// What one `advance` does to `(pos, line, column)` on input `s`.
pub open spec fn advance_step(s: Seq<char>, pos: nat, line: nat, column: nat) -> (nat, nat, nat) {
    if pos >= s.len() {
        (pos, line, column)
    } else if s[pos as int] == '\r' {
        if pos + 1 < s.len() && s[pos + 1int] == '\n' {
            (pos + 2, line + 1, 0)
        } else {
            (pos + 1, line + 1, 0)
        }
    } else if s[pos as int] == '\n' {
        (pos + 1, line + 1, 0)
    } else {
        (pos + 1, line, column + 1)
    }
}

impl Reader {
    /// The characters being read.
    pub closed spec fn input(&self) -> Seq<char> {
        self.chars@
    }

    /// Index of the next unread character.
    pub closed spec fn spec_pos(&self) -> nat {
        self.pos as nat
    }

    /// The current position as a mark.
    pub closed spec fn spec_mark(&self) -> Mark {
        Mark { line: self.line, column: self.column, offset: self.offset }
    }

    /// Internal consistency: the byte offset matches the characters read,
    /// and the counters cannot overflow.
    pub closed spec fn wf(&self) -> bool {
        &&& self.pos <= self.chars@.len()
        &&& self.chars@.len() <= max_input_chars()
        &&& self.offset == utf8_len(self.chars@.take(self.pos as int))
        &&& utf8_len(self.chars@) <= usize::MAX
        &&& self.line <= self.pos
        &&& self.column <= self.pos
    }

    /// Total byte length of the input.
    pub closed spec fn byte_len(&self) -> nat {
        utf8_len(self.chars@)
    }

    /// The character at lookahead `n`, if any.
    pub open spec fn spec_peek_at(&self, n: int) -> Option<char> {
        if 0 <= self.spec_pos() + n < self.input().len() {
            Some(self.input()[self.spec_pos() + n])
        } else {
            None
        }
    }

    /// Whether every character has been read.
    pub open spec fn spec_is_eof(&self) -> bool {
        self.spec_pos() >= self.input().len()
    }

    /// Facts that follow from well-formedness.
    pub proof fn lemma_wf(&self)
        requires
            self.wf(),
        ensures
            self.spec_mark().offset <= self.byte_len(),
            self.spec_pos() <= self.spec_mark().offset,
            self.spec_mark().line <= self.spec_pos(),
            self.spec_mark().column <= self.spec_pos(),
            self.spec_pos() <= self.input().len(),
            self.input().len() <= max_input_chars(),
            self.byte_len() <= usize::MAX,
            self.spec_is_eof() <==> self.spec_mark().offset == self.byte_len(),
    {
        lemma_utf8_len_take_le(self.chars@, self.pos as int);
        lemma_utf8_len_take_mono(self.chars@, 0, self.pos as int);
        assert(self.chars@.take(0) =~= Seq::<char>::empty());
        if self.pos < self.chars@.len() {
            lemma_utf8_len_take_mono(self.chars@, self.pos as int, self.chars@.len() as int);
        } else {
            assert(self.chars@.take(self.pos as int) =~= self.chars@);
        }
        assert(self.chars@.take(self.chars@.len() as int) =~= self.chars@);
    }

    /// At position 0 the mark is the zero mark.
    pub proof fn lemma_start(&self)
        requires
            self.wf(),
            self.spec_pos() == 0,
        ensures
            self.spec_mark() == crate::diagnostic::mark_zero(),
    {
        assert(self.chars@.take(0) =~= Seq::<char>::empty());
    }

    /// A reader positioned at the start of the given characters.
    pub fn from_chars(chars: Vec<char>) -> (r: Self)
        requires
            chars@.len() <= max_input_chars(),
            utf8_len(chars@) <= usize::MAX,
        ensures
            r.wf(),
            r.input() == chars@,
            r.spec_pos() == 0,
            r.spec_mark() == crate::diagnostic::mark_zero(),
    {
        assert(chars@.take(0) =~= Seq::<char>::empty());
        Reader { chars, pos: 0, offset: 0, line: 0, column: 0 }
    }

    /// Create a new reader over the given UTF-8 string.
    pub fn new(input: &str) -> (r: Self)
        requires
            input@.len() <= max_input_chars(),
        ensures
            r.wf(),
            r.input() == input@,
            r.spec_pos() == 0,
            r.spec_mark() == crate::diagnostic::mark_zero(),
    {
        let _ = str_byte_len(input);
        let chars = to_chars(input);
        Self::from_chars(chars)
    }

    /// Peek at the current character without advancing (`None` at EOF).
    pub fn peek(&self) -> (r: Option<char>)
        requires
            self.wf(),
        ensures
            r == self.spec_peek_at(0),
    {
        if self.pos < self.chars.len() {
            Some(self.chars[self.pos])
        } else {
            None
        }
    }

    /// Peek at the character `n` positions ahead (0-indexed).
    pub fn peek_at(&self, n: usize) -> (r: Option<char>)
        requires
            self.wf(),
        ensures
            r == self.spec_peek_at(n as int),
    {
        if n < self.chars.len() - self.pos {
            Some(self.chars[self.pos + n])
        } else {
            None
        }
    }

    /// The character at index `i` of the input.
    pub fn peek_char_at_index(&self, i: usize) -> (r: char)
        requires
            self.wf(),
            i < self.input().len(),
        ensures
            r == self.input()[i as int],
    {
        self.chars[i]
    }

    /// The input characters.
    pub fn chars(&self) -> (r: &Vec<char>)
        ensures
            r@ == self.input(),
    {
        &self.chars
    }

    /// Index of the next unread character.
    pub fn pos(&self) -> (r: usize)
        requires
            self.wf(),
        ensures
            r == self.spec_pos(),
    {
        self.pos
    }

    /// Consume the current character and advance the position.
    ///
    /// `\r\n` is consumed in one call (returning `\r`). Returns `None` at EOF.
    pub fn advance(&mut self) -> (r: Option<char>)
        requires
            old(self).wf(),
        ensures
            final(self).wf(),
            final(self).input() == old(self).input(),
            r == old(self).spec_peek_at(0),
            ({
                let (p, l, c) = advance_step(
                    old(self).input(),
                    old(self).spec_pos(),
                    old(self).spec_mark().line as nat,
                    old(self).spec_mark().column as nat,
                );
                &&& final(self).spec_pos() == p
                &&& final(self).spec_mark().line == l
                &&& final(self).spec_mark().column == c
            }),
            old(self).spec_is_eof() ==> *final(self) == *old(self),
            !old(self).spec_is_eof() ==> final(self).spec_pos() > old(self).spec_pos(),
            final(self).spec_mark().offset >= old(self).spec_mark().offset,
            !old(self).spec_is_eof() ==> final(self).spec_mark().offset > old(self).spec_mark().offset,
            final(self).byte_len() == old(self).byte_len(),
            final(self).spec_mark().offset == utf8_len(final(self).input().take(final(self).spec_pos() as int)),
    {
        if self.pos >= self.chars.len() {
            return None;
        }
        let ch = self.chars[self.pos];
        proof {
            lemma_utf8_len_take_step(self.chars@, self.pos as int);
            lemma_utf8_len_take_le(self.chars@, self.pos as int + 1);
        }
        self.offset = self.offset + char_len_utf8(ch);
        self.pos = self.pos + 1;
        if ch == '\r' {
            if self.pos < self.chars.len() && self.chars[self.pos] == '\n' {
                proof {
                    lemma_utf8_len_take_step(self.chars@, self.pos as int);
                    lemma_utf8_len_take_le(self.chars@, self.pos as int + 1);
                }
                self.offset = self.offset + 1;
                self.pos = self.pos + 1;
            }
            self.line = self.line + 1;
            self.column = 0;
        } else if ch == '\n' {
            self.line = self.line + 1;
            self.column = 0;
        } else {
            self.column = self.column + 1;
        }
        Some(ch)
    }

    /// The current position as a [`Mark`].
    pub fn mark(&self) -> (r: Mark)
        requires
            self.wf(),
        ensures
            r == self.spec_mark(),
    {
        Mark { line: self.line, column: self.column, offset: self.offset }
    }

    /// Advance the reader by `n` characters (stopping early at EOF).
    pub fn advance_by(&mut self, n: usize)
        requires
            old(self).wf(),
        ensures
            final(self).wf(),
            final(self).input() == old(self).input(),
            final(self).spec_pos() >= old(self).spec_pos(),
            final(self).spec_mark().offset >= old(self).spec_mark().offset,
            n > 0 && !old(self).spec_is_eof() ==> final(self).spec_pos() > old(self).spec_pos(),
            n > 0 && !old(self).spec_is_eof() ==> final(self).spec_mark().offset > old(
                self,
            ).spec_mark().offset,
            final(self).spec_pos() <= old(self).spec_pos() + 2 * n,
            final(self).byte_len() == old(self).byte_len(),
    {
        let mut i: usize = 0;
        while i < n && !self.is_eof()
            invariant
                self.wf(),
                self.input() == old(self).input(),
                self.spec_pos() >= old(self).spec_pos(),
                self.spec_mark().offset >= old(self).spec_mark().offset,
                i > 0 && !old(self).spec_is_eof() ==> self.spec_pos() > old(self).spec_pos(),
                i == 0 ==> *self == *old(self),
                i > 0 && !old(self).spec_is_eof() ==> self.spec_mark().offset > old(
                    self,
                ).spec_mark().offset,
                self.spec_pos() <= old(self).spec_pos() + 2 * i,
                i <= n,
                self.byte_len() == old(self).byte_len(),
            decreases n - i,
        {
            self.advance();
            i = i + 1;
        }
    }

    /// The characters between positions `from` and `to`, as a string.
    pub fn slice_chars(&self, from: usize, to: usize) -> (r: String)
        requires
            self.wf(),
            from <= to <= self.input().len(),
        ensures
            r@ == self.input().subrange(from as int, to as int),
    {
        chars_to_string(self.chars.as_slice(), from, to)
    }

    /// Borrow-free substring between two byte offsets, which must fall on
    /// character boundaries (`start_offset <= end_offset`).
    pub fn slice(&self, start_offset: usize, end_offset: usize) -> (r: Option<String>)
        requires
            self.wf(),
        ensures
            r matches Some(s) ==> exists|i: int, j: int|
                0 <= i <= j <= self.input().len() && utf8_len(self.input().take(i)) == start_offset
                    && utf8_len(self.input().take(j)) == end_offset && s@ == self.input().subrange(
                    i,
                    j,
                ),
            r is None ==> !exists|i: int, j: int|
                0 <= i <= j <= self.input().len() && utf8_len(self.input().take(i)) == start_offset
                    && utf8_len(self.input().take(j)) == end_offset,
    {
        let i = self.char_index_of_offset(start_offset);
        let j = self.char_index_of_offset(end_offset);
        match (i, j) {
            (Some(i), Some(j)) => {
                if i <= j {
                    Some(chars_to_string(self.chars.as_slice(), i, j))
                } else {
                    proof {
                        assert forall|a: int, b: int|
                            0 <= a <= b <= self.input().len() && utf8_len(self.input().take(a))
                                == start_offset && utf8_len(self.input().take(b))
                                == end_offset implies false by {
                            if a != i {
                                if a < i {
                                    lemma_utf8_len_take_mono(self.chars@, a, i as int);
                                } else {
                                    lemma_utf8_len_take_mono(self.chars@, i as int, a);
                                }
                            }
                            if b != j {
                                if b < j {
                                    lemma_utf8_len_take_mono(self.chars@, b, j as int);
                                } else {
                                    lemma_utf8_len_take_mono(self.chars@, j as int, b);
                                }
                            }
                        }
                    }
                    None
                }
            },
            _ => None,
        }
    }

    /// The character index whose prefix has exactly `offset` bytes, if any.
    fn char_index_of_offset(&self, offset: usize) -> (r: Option<usize>)
        requires
            self.wf(),
        ensures
            r matches Some(i) ==> i <= self.input().len() && utf8_len(self.input().take(i as int))
                == offset,
            r is None ==> forall|i: int|
                0 <= i <= self.input().len() ==> utf8_len(self.input().take(i)) != offset,
    {
        let mut i: usize = 0;
        let mut bytes: usize = 0;
        proof {
            assert(self.chars@.take(0) =~= Seq::<char>::empty());
        }
        while i < self.chars.len() && bytes < offset
            invariant
                self.wf(),
                i <= self.chars@.len(),
                bytes == utf8_len(self.chars@.take(i as int)),
                forall|k: int| 0 <= k < i ==> utf8_len(self.chars@.take(k)) < offset,
            decreases self.chars@.len() - i,
        {
            proof {
                lemma_utf8_len_take_step(self.chars@, i as int);
                lemma_utf8_len_take_le(self.chars@, i as int + 1);
            }
            bytes = bytes + char_len_utf8(self.chars[i]);
            i = i + 1;
        }
        if bytes == offset {
            Some(i)
        } else {
            proof {
                assert forall|k: int|
                    0 <= k <= self.input().len() implies utf8_len(self.input().take(k))
                    != offset by {
                    if k > i {
                        lemma_utf8_len_take_mono(self.chars@, i as int, k);
                    }
                }
            }
            None
        }
    }

    /// Returns `true` if the reader has reached the end of input.
    pub fn is_eof(&self) -> (r: bool)
        requires
            self.wf(),
        ensures
            r == self.spec_is_eof(),
    {
        self.pos >= self.chars.len()
    }

    /// Whether the character just before the current position is a space,
    /// tab or line break (`true` at the start of the input).
    pub fn prev_is_break_or_blank(&self) -> (r: bool)
        requires
            self.wf(),
        ensures
            r == (self.spec_pos() == 0 || ({
                let c = self.input()[self.spec_pos() - 1];
                c == ' ' || c == '\t' || c == '\n' || c == '\r'
            })),
    {
        if self.pos == 0 {
            return true;
        }
        let c = self.chars[self.pos - 1];
        c == ' ' || c == '\t' || c == '\n' || c == '\r'
    }
}

} // verus!
