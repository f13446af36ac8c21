//! An editable line of UTF-8 text with a cursor.

use vstd::prelude::*;
use vstd::std_specs::iter::IteratorSpec;
use vstd::string::*;
use vstd::utf8::*;

use crate::line::{
    ident, lemma_word_bounds, skip_space_left, skip_space_right, skip_word_left, skip_word_right,
    Line,
};
use crate::stdstr::{
    ceil_char_boundary, char_count, floor_char_boundary, is_alphanumeric, is_whitespace, len_utf8,
    next_back, string_clear, string_insert, string_remove, string_replace_range,
    string_shrink_to, string_with_capacity, trim,
};
use crate::text::{
    char_width, chars_before, lemma_boundary_is_prefix, lemma_ceil_is_next,
    lemma_char_at_boundary, lemma_encode_injective, lemma_encode_splice,
    lemma_floor_is_previous, lemma_prefix_is_boundary, lemma_width_monotone, lemma_width_step,
    trimmed, width,
};

verus! {

/// The room that a fresh or cleared buffer reserves, in bytes.
pub const DEFAULT_RESERVE: usize = 128;

/// Splits `s` at the character boundary `at`, into the characters before it
/// and those after it.
pub(crate) fn split<'a>(s: &'a str, at: usize) -> (parts: (&'a str, &'a str))
    requires
        is_char_boundary(encode_utf8(s@), at as int),
    ensures
        parts.0@ == s@.take(chars_before(s@, at as int)),
        parts.1@ == s@.skip(chars_before(s@, at as int)),
{
    let parts = s.split_at(at);
    proof {
        let k = chars_before(s@, at as int);
        lemma_boundary_is_prefix(s@, at as int);
        lemma_encode_injective(parts.0@, s@.take(k));
        lemma_encode_injective(parts.1@, s@.skip(k));
    }
    parts
}

/// The number of bytes that `s` takes.
pub(crate) fn byte_len(s: &str) -> (n: usize)
    ensures
        n == width(s@),
{
    s.as_bytes().len()
}

/// An editable line of text with a cursor, held as UTF-8.
///
/// The cursor is kept as a byte offset into the text and always stands on a
/// character boundary.
pub struct LineBuffer {
    buf: String,
    cursor_pos: usize,
}

impl View for LineBuffer {
    type V = Line;

    closed spec fn view(&self) -> Line {
        Line { text: self.buf@, cursor: chars_before(self.buf@, self.cursor_pos as int) }
    }
}

impl LineBuffer {
    /// The cursor as a byte offset into the encoded text.
    pub closed spec fn byte_cursor(&self) -> int {
        self.cursor_pos as int
    }

    /// The byte offset of the cursor is a character boundary of the encoded
    /// text, and the cursor of the view counts the characters before it.
    pub open spec fn wf(&self) -> bool {
        &&& is_char_boundary(encode_utf8(self@.text), self.byte_cursor())
        &&& self@.cursor == chars_before(self@.text, self.byte_cursor())
    }

    /// A well-formed buffer has its cursor inside the text, and the byte
    /// offset of the cursor is the width of the characters before it.
    pub proof fn lemma_cursor(&self)
        requires
            self.wf(),
        ensures
            self@.wf(),
            self.byte_cursor() == width(self@.text.take(self@.cursor)),
            0 <= self.byte_cursor() <= width(self@.text),
    {
        lemma_boundary_is_prefix(self@.text, self.byte_cursor());
    }

    /// Construct an empty buffer.
    pub fn new() -> (line: Self)
        ensures
            line.wf(),
            line@ == Line::empty(),
            line.byte_cursor() == 0,
    {
        let line = Self { buf: string_with_capacity(DEFAULT_RESERVE), cursor_pos: 0 };
        proof {
            lemma_prefix_is_boundary(line.buf@, 0);
            assert(line.buf@.take(0) =~= Seq::<char>::empty());
        }
        line
    }

    /// Empty the buffer and give back the room it grew beyond the default.
    pub fn clear(&mut self)
        ensures
            final(self).wf(),
            final(self)@ == Line::empty(),
            final(self).byte_cursor() == 0,
    {
        string_clear(&mut self.buf);
        string_shrink_to(&mut self.buf, DEFAULT_RESERVE);
        self.cursor_pos = 0;
        proof {
            lemma_prefix_is_boundary(self.buf@, 0);
            assert(self.buf@.take(0) =~= Seq::<char>::empty());
        }
    }

    /// Whether the buffer holds no character.
    pub fn is_empty(&self) -> (empty: bool)
        ensures
            empty == (self@.text.len() == 0),
    {
        self.buf.as_str().is_empty()
    }

    /// The number of characters before the cursor.
    pub fn cursor_char_pos(&self) -> (pos: usize)
        requires
            self.wf(),
        ensures
            pos == self@.cursor,
    {
        let (head, _) = split(self.buf.as_str(), self.cursor_pos);
        proof {
            lemma_boundary_is_prefix(self.buf@, self.cursor_pos as int);
        }
        char_count(head)
    }

    /// The cursor as a byte offset into the text; it lies on a character boundary.
    pub fn cursor_pos(&self) -> (pos: usize)
        ensures
            pos == self.byte_cursor(),
            self.wf() ==> pos == width(self@.text.take(self@.cursor)),
    {
        proof {
            if self.wf() {
                self.lemma_cursor();
            }
        }
        self.cursor_pos
    }

    /// The number of characters in the buffer.
    pub fn len(&self) -> (n: usize)
        ensures
            n == self@.text.len(),
    {
        char_count(self.buf.as_str())
    }

    /// The text of the buffer as it is.
    pub fn as_str(&self) -> (s: &str)
        ensures
            s@ == self@.text,
    {
        self.buf.as_str()
    }

    /// Take the text out of the buffer, without the whitespace at its ends,
    /// and leave the buffer empty with the cursor at its start.
    ///
    /// The position of the cursor before the call says nothing about the
    /// text that is returned.
    pub fn take(&mut self) -> (text: String)
        ensures
            text@ == trimmed(old(self)@.text),
            final(self).wf(),
            final(self)@ == Line::empty(),
            final(self).byte_cursor() == 0,
    {
        let text = trim(self.buf.as_str()).to_owned();
        self.buf = string_with_capacity(DEFAULT_RESERVE);
        self.cursor_pos = 0;
        proof {
            lemma_prefix_is_boundary(self.buf@, 0);
            assert(self.buf@.take(0) =~= Seq::<char>::empty());
        }
        text
    }

    /// Replace the text by `text` and put the cursor at its end.
    pub fn load(&mut self, text: &str)
        ensures
            final(self).wf(),
            final(self)@ == Line::loaded(text@),
            final(self).byte_cursor() == width(text@),
    {
        string_clear(&mut self.buf);
        self.buf.append(text);
        assert(self.buf@ =~= text@);
        self.cursor_pos = byte_len(self.buf.as_str());
        proof {
            lemma_prefix_is_boundary(self.buf@, self.buf@.len() as int);
            assert(self.buf@.take(self.buf@.len() as int) =~= self.buf@);
        }
    }

    /// Insert `c` at the cursor; the cursor moves past it, by as many bytes
    /// as the encoding of `c` takes.
    pub fn insert_char(&mut self, c: char)
        requires
            old(self).wf(),
        ensures
            final(self).wf(),
            final(self)@ == old(self)@.insert(c),
            final(self).byte_cursor() == old(self).byte_cursor() + char_width(c),
    {
        let ghost t = self.buf@;
        let ghost k = self@.cursor;
        proof {
            lemma_boundary_is_prefix(t, self.cursor_pos as int);
            lemma_encode_splice(t, k, k, seq![c]);
        }
        string_insert(&mut self.buf, self.cursor_pos, c);
        proof {
            let u = t.take(k) + seq![c] + t.skip(k);
            lemma_encode_injective(self.buf@, u);
            assert(u =~= t.insert(k, c));
            assert(u.take(k + 1) =~= t.take(k) + seq![c]);
            assert(u.take(k) =~= t.take(k));
            lemma_width_step(u, k);
            lemma_prefix_is_boundary(u, k + 1);
        }
        self.cursor_pos += len_utf8(c);
    }

    /// Delete the character before the cursor.
    ///
    /// Returns whether there was one.
    pub fn delete_before_cursor(&mut self) -> (deleted: bool)
        requires
            old(self).wf(),
        ensures
            final(self).wf(),
            final(self)@ == old(self)@.backspace(),
            deleted == (old(self)@.cursor > 0),
    {
        if self.cursor_pos > 0 {
            let ghost t = self.buf@;
            let ghost k = self@.cursor;
            proof {
                lemma_boundary_is_prefix(t, self.cursor_pos as int);
                assert(k > 0) by {
                    if k == 0 {
                        assert(t.take(0) =~= Seq::<char>::empty());
                    }
                }
            }
            let at = floor_char_boundary(self.buf.as_str(), self.cursor_pos - 1);
            proof {
                lemma_floor_is_previous(t, k, at as int);
                lemma_width_step(t, k - 1);
            }
            self.cursor_pos = at;
            let c = string_remove(&mut self.buf, at);
            proof {
                lemma_char_at_boundary(t, k - 1, c);
                lemma_encode_splice(t, k - 1, k, Seq::<char>::empty());
                let u = t.take(k - 1) + Seq::<char>::empty() + t.skip(k);
                lemma_encode_injective(self.buf@, u);
                assert(u =~= t.take(k - 1) + t.skip(k));
                assert(u.take(k - 1) =~= t.take(k - 1));
                lemma_prefix_is_boundary(u, k - 1);
            }
            true
        } else {
            proof {
                lemma_prefix_is_boundary(self.buf@, 0);
                assert(self.buf@.take(0) =~= Seq::<char>::empty());
            }
            false
        }
    }

    /// Delete the character at the cursor.
    ///
    /// Returns whether there was one.
    pub fn delete_at_cursor(&mut self) -> (deleted: bool)
        requires
            old(self).wf(),
        ensures
            final(self).wf(),
            final(self)@ == old(self)@.delete(),
            deleted == (old(self)@.cursor < old(self)@.text.len()),
    {
        let ghost t = self.buf@;
        let ghost k = self@.cursor;
        proof {
            lemma_boundary_is_prefix(t, self.cursor_pos as int);
            assert(t.take(t.len() as int) =~= t);
            if k < t.len() {
                lemma_width_monotone(t, k, t.len() as int);
            }
        }
        if self.cursor_pos < byte_len(self.buf.as_str()) {
            let c = string_remove(&mut self.buf, self.cursor_pos);
            proof {
                lemma_char_at_boundary(t, k, c);
                lemma_width_step(t, k);
                lemma_encode_splice(t, k, k + 1, Seq::<char>::empty());
                let u = t.take(k) + Seq::<char>::empty() + t.skip(k + 1);
                lemma_encode_injective(self.buf@, u);
                assert(u =~= t.take(k) + t.skip(k + 1));
                assert(u.take(k) =~= t.take(k));
                lemma_prefix_is_boundary(u, k);
            }
            true
        } else {
            false
        }
    }

    /// Move the cursor one character to the left.
    ///
    /// Returns whether it moved.
    pub fn move_cursor_left(&mut self) -> (moved: bool)
        requires
            old(self).wf(),
        ensures
            final(self).wf(),
            final(self)@ == old(self)@.left(),
            moved == (old(self)@.cursor > 0),
    {
        let ghost t = self.buf@;
        let ghost k = self@.cursor;
        proof {
            lemma_boundary_is_prefix(t, self.cursor_pos as int);
            assert(t.take(0) =~= Seq::<char>::empty());
        }
        if self.cursor_pos > 0 {
            let at = floor_char_boundary(self.buf.as_str(), self.cursor_pos - 1);
            proof {
                lemma_floor_is_previous(t, k, at as int);
            }
            self.cursor_pos = at;
            true
        } else {
            false
        }
    }

    /// Move the cursor one character to the right.
    ///
    /// Returns whether it moved.
    pub fn move_cursor_right(&mut self) -> (moved: bool)
        requires
            old(self).wf(),
        ensures
            final(self).wf(),
            final(self)@ == old(self)@.right(),
            moved == (old(self)@.cursor < old(self)@.text.len()),
    {
        let ghost t = self.buf@;
        let ghost k = self@.cursor;
        proof {
            lemma_boundary_is_prefix(t, self.cursor_pos as int);
            assert(t.take(t.len() as int) =~= t);
            if k < t.len() {
                lemma_width_monotone(t, k, t.len() as int);
            }
        }
        if self.cursor_pos < byte_len(self.buf.as_str()) {
            let at = ceil_char_boundary(self.buf.as_str(), self.cursor_pos + 1);
            proof {
                lemma_ceil_is_next(t, k, at as int);
            }
            self.cursor_pos = at;
            true
        } else {
            false
        }
    }

    /// Move the cursor to the start of the line.
    ///
    /// Returns the number of characters it passed.
    pub fn move_cursor_to_start(&mut self) -> (passed: usize)
        requires
            old(self).wf(),
        ensures
            final(self).wf(),
            final(self)@ == old(self)@.home(),
            passed == old(self)@.cursor,
    {
        let old_pos = self.cursor_pos;
        self.cursor_pos = 0;
        proof {
            lemma_boundary_is_prefix(self.buf@, old_pos as int);
            lemma_prefix_is_boundary(self.buf@, 0);
            assert(self.buf@.take(0) =~= Seq::<char>::empty());
        }
        let (head, _) = split(self.buf.as_str(), old_pos);
        char_count(head)
    }

    /// Move the cursor to the end of the line.
    ///
    /// Returns the number of characters it passed.
    pub fn move_cursor_to_end(&mut self) -> (passed: usize)
        requires
            old(self).wf(),
        ensures
            final(self).wf(),
            final(self)@ == old(self)@.end(),
            passed == old(self)@.text.len() - old(self)@.cursor,
    {
        let old_pos = self.cursor_pos;
        self.cursor_pos = byte_len(self.buf.as_str());
        proof {
            lemma_boundary_is_prefix(self.buf@, old_pos as int);
            lemma_prefix_is_boundary(self.buf@, self.buf@.len() as int);
            assert(self.buf@.take(self.buf@.len() as int) =~= self.buf@);
        }
        let (_, tail) = split(self.buf.as_str(), old_pos);
        char_count(tail)
    }

    /// The byte offset at which the word on the left of the cursor starts.
    pub fn find_word_start_left(&self) -> (start: usize)
        requires
            self.wf(),
        ensures
            start == width(self@.text.take(self@.word_start_left())),
            0 <= self@.word_start_left() <= self@.cursor,
    {
        broadcast use {axiom_spec_iter, next_postcondition};

        let ghost t = self.buf@;
        let ghost k = self@.cursor;
        proof {
            lemma_boundary_is_prefix(t, self.cursor_pos as int);
            lemma_word_bounds(self@);
            assert(t.take(0) =~= Seq::<char>::empty());
        }
        if self.cursor_pos == 0 {
            return 0;
        }
        let (head, _) = split(self.buf.as_str(), self.cursor_pos);
        let mut it = head.chars();
        let mut start: usize = self.cursor_pos;
        let ghost mut j: int = k;
        let mut first: Option<char> = None;
        // pass over whitespace
        while first.is_none()
            invariant
                0 <= j <= k <= t.len(),
                t == self@.text,
                k == self@.cursor,
                0 <= self@.word_start_left() <= k,
                it.remaining() == t.take(j),
                start == width(t.take(j)),
                width(t.take(0)) == 0,
                first is None ==> skip_space_left(t, k) == skip_space_left(t, j),
                first is Some ==> j + 1 == skip_space_left(t, k) && first->0 == t[j] && j < k,
            decreases j,
        {
            match next_back(&mut it) {
                None => {
                    return 0;
                },
                Some(c) => {
                    proof {
                        lemma_width_step(t, j - 1);
                        assert(t.take(j).drop_last() =~= t.take(j - 1));
                        j = j - 1;
                    }
                    start -= len_utf8(c);
                    if !is_whitespace(c) {
                        first = Some(c);
                    }
                },
            }
        }
        let c = first.unwrap();
        if Self::is_ident_char(c) {
            // walk over the characters of the word
            loop
                invariant
                    0 <= j < k <= t.len(),
                    t == self@.text,
                    0 <= self@.word_start_left() <= self@.cursor,
                    it.remaining() == t.take(j),
                    start == width(t.take(j)),
                    width(t.take(0)) == 0,
                    self@.word_start_left() == skip_word_left(t, j),
                decreases j,
            {
                match next_back(&mut it) {
                    None => {
                        return start;
                    },
                    Some(c) => {
                        if !Self::is_ident_char(c) {
                            return start;
                        }
                        proof {
                            lemma_width_step(t, j - 1);
                            assert(t.take(j).drop_last() =~= t.take(j - 1));
                            j = j - 1;
                        }
                        start -= len_utf8(c);
                    },
                }
            }
        }
        start
    }

    /// The byte offset at which the word on the right of the cursor ends.
    pub fn find_word_end_right(&self) -> (end: usize)
        requires
            self.wf(),
        ensures
            end == width(self@.text.take(self@.word_end_right())),
            self@.cursor <= self@.word_end_right() <= self@.text.len(),
    {
        broadcast use {axiom_spec_iter, next_postcondition};

        let ghost t = self.buf@;
        let ghost k = self@.cursor;
        let total = byte_len(self.buf.as_str());
        proof {
            lemma_boundary_is_prefix(t, self.cursor_pos as int);
            lemma_word_bounds(self@);
            assert(t.take(t.len() as int) =~= t);
            if k < t.len() {
                lemma_width_monotone(t, k, t.len() as int);
            }
        }
        if self.cursor_pos >= total {
            return total;
        }
        let (_, tail) = split(self.buf.as_str(), self.cursor_pos);
        let mut it = tail.chars();
        let mut end: usize = self.cursor_pos;
        let ghost mut i: int = k;
        let mut first: Option<char> = None;
        // pass over whitespace
        while first.is_none()
            invariant
                0 <= k <= i <= t.len(),
                t == self@.text,
                k == self@.cursor,
                k <= self@.word_end_right() <= t.len(),
                it.remaining() == t.skip(i),
                end == width(t.take(i)),
                total == width(t),
                t.take(t.len() as int) == t,
                first is None ==> skip_space_right(t, k) == skip_space_right(t, i),
                first is Some ==> i - 1 == skip_space_right(t, k) && first->0 == t[i - 1] && k < i,
            decreases t.len() - i,
        {
            match it.next() {
                None => {
                    return total;
                },
                Some(c) => {
                    proof {
                        lemma_width_step(t, i);
                        lemma_width_monotone(t, i + 1, t.len() as int);
                        assert(t.skip(i).drop_first() =~= t.skip(i + 1));
                        i = i + 1;
                    }
                    end += len_utf8(c);
                    if !is_whitespace(c) {
                        first = Some(c);
                    }
                },
            }
        }
        let c = first.unwrap();
        if Self::is_ident_char(c) {
            // walk over the characters of the word
            loop
                invariant
                    0 <= k < i <= t.len(),
                    t == self@.text,
                    self@.cursor <= self@.word_end_right() <= t.len(),
                    it.remaining() == t.skip(i),
                    end == width(t.take(i)),
                    total == width(t),
                    t.take(t.len() as int) == t,
                    self@.word_end_right() == skip_word_right(t, i),
                decreases t.len() - i,
            {
                match it.next() {
                    None => {
                        return end;
                    },
                    Some(c) => {
                        if !Self::is_ident_char(c) {
                            return end;
                        }
                        proof {
                            lemma_width_step(t, i);
                            lemma_width_monotone(t, i + 1, t.len() as int);
                            assert(t.skip(i).drop_first() =~= t.skip(i + 1));
                            i = i + 1;
                        }
                        end += len_utf8(c);
                    },
                }
            }
        }
        end
    }

    /// The number of characters between the ends of the prefixes of `i` and
    /// of `j` characters, given as byte offsets.
    fn count_between(&self, from: usize, to: usize, Ghost(i): Ghost<int>, Ghost(j): Ghost<int>) -> (n:
        usize)
        requires
            0 <= i <= j <= self.buf@.len(),
            from == width(self.buf@.take(i)),
            to == width(self.buf@.take(j)),
        ensures
            n == j - i,
    {
        let ghost t = self.buf@;
        proof {
            lemma_prefix_is_boundary(t, j);
            lemma_prefix_is_boundary(t.take(j), i);
            assert(t.take(j).take(i) =~= t.take(i));
        }
        let (head, _) = split(self.buf.as_str(), to);
        let (_, between) = split(head, from);
        char_count(between)
    }

    /// Move the cursor to the start of the word on its left.
    ///
    /// A word is a run of alphanumeric characters and underscores; any other
    /// character that is not whitespace is a word of its own, and whitespace
    /// is passed over.
    ///
    /// Returns the number of characters that the cursor passed.
    pub fn move_cursor_word_left(&mut self) -> (passed: usize)
        requires
            old(self).wf(),
        ensures
            final(self).wf(),
            final(self)@ == old(self)@.word_left(),
            passed == old(self)@.cursor - old(self)@.word_start_left(),
    {
        let ghost t = self.buf@;
        let ghost k = self@.cursor;
        let ghost w = self@.word_start_left();
        let old_pos = self.cursor_pos;
        let new_pos = self.find_word_start_left();
        proof {
            lemma_boundary_is_prefix(t, old_pos as int);
            lemma_prefix_is_boundary(t, w);
        }
        self.cursor_pos = new_pos;
        self.count_between(new_pos, old_pos, Ghost(w), Ghost(k))
    }

    /// Move the cursor to the end of the word on its right.
    ///
    /// A word is a run of alphanumeric characters and underscores; any other
    /// character that is not whitespace is a word of its own, and whitespace
    /// is passed over.
    ///
    /// Returns the number of characters that the cursor passed.
    pub fn move_cursor_word_right(&mut self) -> (passed: usize)
        requires
            old(self).wf(),
        ensures
            final(self).wf(),
            final(self)@ == old(self)@.word_right(),
            passed == old(self)@.word_end_right() - old(self)@.cursor,
    {
        let ghost t = self.buf@;
        let ghost k = self@.cursor;
        let ghost w = self@.word_end_right();
        let old_pos = self.cursor_pos;
        let new_pos = self.find_word_end_right();
        proof {
            lemma_boundary_is_prefix(t, old_pos as int);
            lemma_prefix_is_boundary(t, w);
        }
        self.cursor_pos = new_pos;
        self.count_between(old_pos, new_pos, Ghost(k), Ghost(w))
    }

    /// Delete the word on the left of the cursor.
    ///
    /// Returns the number of characters deleted.
    pub fn delete_word_left(&mut self) -> (deleted: usize)
        requires
            old(self).wf(),
        ensures
            final(self).wf(),
            final(self)@ == old(self)@.delete_word_left(),
            deleted == old(self)@.cursor - old(self)@.word_start_left(),
    {
        let ghost t = self.buf@;
        let ghost k = self@.cursor;
        let ghost w = self@.word_start_left();
        let start = self.find_word_start_left();
        let end = self.cursor_pos;
        proof {
            lemma_boundary_is_prefix(t, end as int);
            lemma_prefix_is_boundary(t, w);
            lemma_width_monotone(t, w, k);
        }
        if start == end {
            assert(t.take(k) + t.skip(k) =~= t);
            return 0;
        }
        let deleted = self.count_between(start, end, Ghost(w), Ghost(k));
        proof {
            lemma_encode_splice(t, w, k, Seq::<char>::empty());
            reveal_strlit("");
            assert(""@ =~= Seq::<char>::empty());
        }
        string_replace_range(&mut self.buf, start, end, "");
        self.cursor_pos = start;
        proof {
            let u = t.take(w) + Seq::<char>::empty() + t.skip(k);
            lemma_encode_injective(self.buf@, u);
            assert(u =~= t.take(w) + t.skip(k));
            assert(u.take(w) =~= t.take(w));
            lemma_prefix_is_boundary(u, w);
        }
        deleted
    }

    /// Delete the word on the right of the cursor.
    ///
    /// Returns the number of characters deleted.
    pub fn delete_word_right(&mut self) -> (deleted: usize)
        requires
            old(self).wf(),
        ensures
            final(self).wf(),
            final(self)@ == old(self)@.delete_word_right(),
            deleted == old(self)@.word_end_right() - old(self)@.cursor,
    {
        let ghost t = self.buf@;
        let ghost k = self@.cursor;
        let ghost w = self@.word_end_right();
        let start = self.cursor_pos;
        let end = self.find_word_end_right();
        proof {
            lemma_boundary_is_prefix(t, start as int);
            lemma_prefix_is_boundary(t, w);
            lemma_width_monotone(t, k, w);
        }
        if start == end {
            assert(t.take(k) + t.skip(k) =~= t);
            return 0;
        }
        let deleted = self.count_between(start, end, Ghost(k), Ghost(w));
        proof {
            lemma_encode_splice(t, k, w, Seq::<char>::empty());
            reveal_strlit("");
            assert(""@ =~= Seq::<char>::empty());
        }
        string_replace_range(&mut self.buf, start, end, "");
        proof {
            let u = t.take(k) + Seq::<char>::empty() + t.skip(w);
            lemma_encode_injective(self.buf@, u);
            assert(u =~= t.take(k) + t.skip(w));
            assert(u.take(k) =~= t.take(k));
            lemma_prefix_is_boundary(u, k);
        }
        deleted
    }

    /// Whether `c` belongs to a word: alphanumeric or an underscore.
    pub fn is_ident_char(c: char) -> (b: bool)
        ensures
            b == ident(c),
    {
        is_alphanumeric(c) || c == '_'
    }
}

} // verus!
