//! The mathematical model of an edited line: a sequence of characters and a
//! cursor counted in characters, with the editing operations as functions.

use vstd::prelude::*;

use crate::stdstr::{alphanumeric, white_space};

verus! {

/// Whether `c` belongs to a word: alphanumeric or an underscore.
pub open spec fn ident(c: char) -> bool {
    alphanumeric(c) || c == '_'
}

/// The first index at or after `i` whose character is not whitespace, or the
/// length of `t` if only whitespace follows.
pub open spec fn skip_space_right(t: Seq<char>, i: int) -> int
    decreases t.len() - i,
{
    if 0 <= i < t.len() && white_space(t[i]) {
        skip_space_right(t, i + 1)
    } else {
        i
    }
}

/// The first index at or after `i` whose character is not a word character,
/// or the length of `t` if only word characters follow.
pub open spec fn skip_word_right(t: Seq<char>, i: int) -> int
    decreases t.len() - i,
{
    if 0 <= i < t.len() && ident(t[i]) {
        skip_word_right(t, i + 1)
    } else {
        i
    }
}

/// The last index at or before `i` that has no whitespace just before it.
pub open spec fn skip_space_left(t: Seq<char>, i: int) -> int
    decreases i,
{
    if 0 < i <= t.len() && white_space(t[i - 1]) {
        skip_space_left(t, i - 1)
    } else {
        i
    }
}

/// The last index at or before `i` that has no word character just before it.
pub open spec fn skip_word_left(t: Seq<char>, i: int) -> int
    decreases i,
{
    if 0 < i <= t.len() && ident(t[i - 1]) {
        skip_word_left(t, i - 1)
    } else {
        i
    }
}

/// A line of text under edit.
pub struct Line {
    /// The characters of the line.
    pub text: Seq<char>,
    /// The number of characters before the cursor.
    pub cursor: int,
}

impl Line {
    /// The cursor is inside the text or at one of its ends.
    pub open spec fn wf(self) -> bool {
        0 <= self.cursor <= self.text.len()
    }

    /// The empty line.
    pub open spec fn empty() -> Line {
        Line { text: Seq::empty(), cursor: 0 }
    }

    /// The line that holds `text`, with the cursor at its end.
    pub open spec fn loaded(text: Seq<char>) -> Line {
        Line { text, cursor: text.len() as int }
    }

    /// The same text with the cursor at `cursor`.
    pub open spec fn at(self, cursor: int) -> Line {
        Line { text: self.text, cursor }
    }

    /// The characters between `from` and the cursor are removed and the
    /// cursor stands at `from`.
    pub open spec fn cut_left(self, from: int) -> Line {
        Line { text: self.text.take(from) + self.text.skip(self.cursor), cursor: from }
    }

    /// The characters between the cursor and `to` are removed.
    pub open spec fn cut_right(self, to: int) -> Line {
        Line { text: self.text.take(self.cursor) + self.text.skip(to), cursor: self.cursor }
    }

    /// `c` is inserted at the cursor, which moves past it.
    pub open spec fn insert(self, c: char) -> Line {
        Line { text: self.text.insert(self.cursor, c), cursor: self.cursor + 1 }
    }

    /// The character before the cursor is removed, if there is one.
    pub open spec fn backspace(self) -> Line {
        if self.cursor > 0 {
            self.cut_left(self.cursor - 1)
        } else {
            self
        }
    }

    /// The character at the cursor is removed, if there is one.
    pub open spec fn delete(self) -> Line {
        if self.cursor < self.text.len() {
            self.cut_right(self.cursor + 1)
        } else {
            self
        }
    }

    /// The cursor moves one character to the left, if it can.
    pub open spec fn left(self) -> Line {
        if self.cursor > 0 {
            self.at(self.cursor - 1)
        } else {
            self
        }
    }

    /// The cursor moves one character to the right, if it can.
    pub open spec fn right(self) -> Line {
        if self.cursor < self.text.len() {
            self.at(self.cursor + 1)
        } else {
            self
        }
    }

    /// The cursor moves to the start of the line.
    pub open spec fn home(self) -> Line {
        self.at(0)
    }

    /// The cursor moves to the end of the line.
    pub open spec fn end(self) -> Line {
        self.at(self.text.len() as int)
    }

    /// Where the word to the left of the cursor starts: whitespace before the
    /// cursor is passed over; if the character before it is a word character
    /// the whole run of word characters is taken, otherwise that one character.
    pub open spec fn word_start_left(self) -> int {
        let j = skip_space_left(self.text, self.cursor);
        if j <= 0 {
            0
        } else if ident(self.text[j - 1]) {
            skip_word_left(self.text, j - 1)
        } else {
            j - 1
        }
    }

    /// Where the word to the right of the cursor ends: whitespace after the
    /// cursor is passed over; if the character after it is a word character
    /// the whole run of word characters is taken, otherwise that one character.
    pub open spec fn word_end_right(self) -> int {
        let i = skip_space_right(self.text, self.cursor);
        if i >= self.text.len() {
            self.text.len() as int
        } else if ident(self.text[i]) {
            skip_word_right(self.text, i + 1)
        } else {
            i + 1
        }
    }

    /// The cursor moves to the start of the word on its left.
    pub open spec fn word_left(self) -> Line {
        self.at(self.word_start_left())
    }

    /// The cursor moves to the end of the word on its right.
    pub open spec fn word_right(self) -> Line {
        self.at(self.word_end_right())
    }

    /// The word on the left of the cursor is removed.
    pub open spec fn delete_word_left(self) -> Line {
        self.cut_left(self.word_start_left())
    }

    /// The word on the right of the cursor is removed.
    pub open spec fn delete_word_right(self) -> Line {
        self.cut_right(self.word_end_right())
    }
}

/// Skipping whitespace to the right stays inside the text, passes over
/// whitespace only, and stops at the end or before a character that is none.
pub proof fn lemma_skip_space_right(t: Seq<char>, i: int)
    requires
        0 <= i <= t.len(),
    ensures
        i <= skip_space_right(t, i) <= t.len(),
        forall|j: int| i <= j < skip_space_right(t, i) ==> white_space(#[trigger] t[j]),
        skip_space_right(t, i) < t.len() ==> !white_space(t[skip_space_right(t, i)]),
    decreases t.len() - i,
{
    if i < t.len() && white_space(t[i]) {
        lemma_skip_space_right(t, i + 1);
    }
}

/// Skipping word characters to the right stays inside the text, passes over
/// word characters only, and stops at the end or before a character that is none.
pub proof fn lemma_skip_word_right(t: Seq<char>, i: int)
    requires
        0 <= i <= t.len(),
    ensures
        i <= skip_word_right(t, i) <= t.len(),
        forall|j: int| i <= j < skip_word_right(t, i) ==> ident(#[trigger] t[j]),
        skip_word_right(t, i) < t.len() ==> !ident(t[skip_word_right(t, i)]),
    decreases t.len() - i,
{
    if i < t.len() && ident(t[i]) {
        lemma_skip_word_right(t, i + 1);
    }
}

/// Skipping whitespace to the left stays inside the text, passes over
/// whitespace only, and stops at the start or after a character that is none.
pub proof fn lemma_skip_space_left(t: Seq<char>, i: int)
    requires
        0 <= i <= t.len(),
    ensures
        0 <= skip_space_left(t, i) <= i,
        forall|j: int| skip_space_left(t, i) <= j < i ==> white_space(#[trigger] t[j]),
        skip_space_left(t, i) > 0 ==> !white_space(t[skip_space_left(t, i) - 1]),
    decreases i,
{
    if 0 < i && white_space(t[i - 1]) {
        lemma_skip_space_left(t, i - 1);
    }
}

/// Skipping word characters to the left stays inside the text, passes over
/// word characters only, and stops at the start or after a character that is none.
pub proof fn lemma_skip_word_left(t: Seq<char>, i: int)
    requires
        0 <= i <= t.len(),
    ensures
        0 <= skip_word_left(t, i) <= i,
        forall|j: int| skip_word_left(t, i) <= j < i ==> ident(#[trigger] t[j]),
        skip_word_left(t, i) > 0 ==> !ident(t[skip_word_left(t, i) - 1]),
    decreases i,
{
    if 0 < i && ident(t[i - 1]) {
        lemma_skip_word_left(t, i - 1);
    }
}

/// The word boundaries lie on either side of the cursor, inside the text.
pub proof fn lemma_word_bounds(l: Line)
    requires
        l.wf(),
    ensures
        0 <= l.word_start_left() <= l.cursor <= l.word_end_right() <= l.text.len(),
{
    lemma_skip_space_left(l.text, l.cursor);
    lemma_skip_space_right(l.text, l.cursor);
    let j = skip_space_left(l.text, l.cursor);
    if j > 0 {
        lemma_skip_word_left(l.text, j - 1);
    }
    let i = skip_space_right(l.text, l.cursor);
    if i < l.text.len() {
        lemma_skip_word_right(l.text, i + 1);
    }
}

/// The shape of a move to the right by a word: whitespace is passed over
/// first; what follows is a whole run of word characters, or one character
/// that is neither whitespace nor a word character, or the end of the line.
pub proof fn lemma_word_right_shape(l: Line)
    requires
        l.wf(),
    ensures
        ({
            let t = l.text;
            let i = skip_space_right(t, l.cursor);
            let e = l.word_end_right();
            &&& l.cursor <= i <= e <= t.len()
            &&& forall|j: int| l.cursor <= j < i ==> white_space(#[trigger] t[j])
            &&& i == t.len() ==> e == t.len()
            &&& i < t.len() ==> !white_space(t[i]) && i < e
            &&& i < t.len() && !ident(t[i]) ==> e == i + 1
            &&& i < t.len() && ident(t[i]) ==> (forall|j: int| i <= j < e ==> ident(#[trigger] t[j]))
                && (e < t.len() ==> !ident(t[e]))
        }),
{
    let t = l.text;
    lemma_skip_space_right(t, l.cursor);
    let i = skip_space_right(t, l.cursor);
    if i < t.len() {
        lemma_skip_word_right(t, i + 1);
    }
}

/// The shape of a move to the left by a word: whitespace is passed over
/// first; what comes before it is a whole run of word characters, or one
/// character that is neither whitespace nor a word character, or the start
/// of the line.
pub proof fn lemma_word_left_shape(l: Line)
    requires
        l.wf(),
    ensures
        ({
            let t = l.text;
            let j = skip_space_left(t, l.cursor);
            let s = l.word_start_left();
            &&& 0 <= s <= j <= l.cursor
            &&& forall|i: int| j <= i < l.cursor ==> white_space(#[trigger] t[i])
            &&& j == 0 ==> s == 0
            &&& j > 0 ==> !white_space(t[j - 1]) && s < j
            &&& j > 0 && !ident(t[j - 1]) ==> s == j - 1
            &&& j > 0 && ident(t[j - 1]) ==> (forall|i: int| s <= i < j ==> ident(#[trigger] t[i]))
                && (s > 0 ==> !ident(t[s - 1]))
        }),
{
    let t = l.text;
    lemma_skip_space_left(t, l.cursor);
    let j = skip_space_left(t, l.cursor);
    if j > 0 {
        lemma_skip_word_left(t, j - 1);
    }
}

} // verus!
