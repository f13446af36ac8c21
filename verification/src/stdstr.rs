//! Contracts for the operations of `std` on strings and characters that the
//! line editor is built from. None of them is proved here: each states what
//! the documentation of `std` says of the function it calls.

use std::str::Chars;
use vstd::prelude::*;
use vstd::std_specs::iter::IteratorSpec;
use vstd::utf8::*;

use crate::text::{char_width, trimmed};

verus! {

/// Whether `c` has the Unicode property `White_Space`, as `char::is_whitespace`
/// decides it.
pub uninterp spec fn white_space(c: char) -> bool;

/// Whether `c` is alphabetic or numeric in the sense of Unicode, as
/// `char::is_alphanumeric` decides it.
pub uninterp spec fn alphanumeric(c: char) -> bool;

/// `char::is_whitespace`: the result is the property that `white_space` names.
#[verifier::external_body]
pub(crate) fn is_whitespace(c: char) -> (b: bool)
    ensures
        b == white_space(c),
{
    c.is_whitespace()
}

/// `char::is_alphanumeric`: the result is the property that `alphanumeric` names.
#[verifier::external_body]
pub(crate) fn is_alphanumeric(c: char) -> (b: bool)
    ensures
        b == alphanumeric(c),
{
    c.is_alphanumeric()
}

/// `char::len_utf8`: the number of bytes that the UTF-8 encoding of `c` takes.
#[verifier::external_body]
pub(crate) fn len_utf8(c: char) -> (n: usize)
    ensures
        n == char_width(c),
{
    c.len_utf8()
}

/// `char::encode_utf8`, into a buffer of four bytes: the bytes of the UTF-8
/// encoding of `c`.
#[verifier::external_body]
pub(crate) fn encode_char(c: char) -> (bytes: Vec<u8>)
    ensures
        bytes@ == encode_utf8(seq![c]),
{
    let mut buffer = [0; 4];
    c.encode_utf8(&mut buffer).as_bytes().to_vec()
}

/// `String::with_capacity`: an empty string, whatever room was reserved.
#[verifier::external_body]
pub(crate) fn string_with_capacity(capacity: usize) -> (s: String)
    ensures
        s@ == Seq::<char>::empty(),
{
    String::with_capacity(capacity)
}

/// `String::clear`: the string is empty afterwards.
#[verifier::external_body]
pub(crate) fn string_clear(s: &mut String)
    ensures
        final(s)@ == Seq::<char>::empty(),
{
    s.clear()
}

/// `String::shrink_to`: gives back spare room and leaves the content alone.
#[verifier::external_body]
pub(crate) fn string_shrink_to(s: &mut String, min_capacity: usize)
    ensures
        final(s)@ == old(s)@,
{
    s.shrink_to(min_capacity)
}

/// `String::insert`: at a character boundary `idx`, the bytes of the string
/// become those before `idx`, the encoding of `ch`, then those from `idx` on.
#[verifier::external_body]
pub(crate) fn string_insert(s: &mut String, idx: usize, ch: char)
    requires
        is_char_boundary(encode_utf8(old(s)@), idx as int),
    ensures
        encode_utf8(final(s)@) == encode_utf8(old(s)@).subrange(0, idx as int) + encode_utf8(
            seq![ch],
        ) + encode_utf8(old(s)@).subrange(idx as int, encode_utf8(old(s)@).len() as int),
        encode_utf8(final(s)@).len() <= usize::MAX,
{
    s.insert(idx, ch)
}

/// `String::remove`: at a character boundary `idx` before the end, takes out
/// the character whose encoding starts there and returns it.
#[verifier::external_body]
pub(crate) fn string_remove(s: &mut String, idx: usize) -> (ch: char)
    requires
        is_char_boundary(encode_utf8(old(s)@), idx as int),
        idx < encode_utf8(old(s)@).len(),
    ensures
        idx + char_width(ch) <= encode_utf8(old(s)@).len(),
        encode_utf8(old(s)@).subrange(idx as int, idx + char_width(ch)) == encode_utf8(seq![ch]),
        encode_utf8(final(s)@) == encode_utf8(old(s)@).subrange(0, idx as int) + encode_utf8(
            old(s)@,
        ).subrange(idx + char_width(ch), encode_utf8(old(s)@).len() as int),
{
    s.remove(idx)
}

/// `String::replace_range` with the range `start..end`, both character
/// boundaries: the bytes in the range give way to those of `with`.
#[verifier::external_body]
pub(crate) fn string_replace_range(s: &mut String, start: usize, end: usize, with: &str)
    requires
        start <= end,
        is_char_boundary(encode_utf8(old(s)@), start as int),
        is_char_boundary(encode_utf8(old(s)@), end as int),
    ensures
        encode_utf8(final(s)@) == encode_utf8(old(s)@).subrange(0, start as int) + encode_utf8(
            with@,
        ) + encode_utf8(old(s)@).subrange(end as int, encode_utf8(old(s)@).len() as int),
{
    s.replace_range(start..end, with)
}

/// `str::floor_char_boundary`: the last character boundary at or before
/// `index`, for an `index` inside the string.
#[verifier::external_body]
pub(crate) fn floor_char_boundary(s: &str, index: usize) -> (at: usize)
    requires
        index <= encode_utf8(s@).len(),
    ensures
        at <= index,
        is_char_boundary(encode_utf8(s@), at as int),
        forall|i: int| at < i <= index ==> !is_char_boundary(encode_utf8(s@), i),
{
    s.floor_char_boundary(index)
}

/// `str::ceil_char_boundary`: the first character boundary at or after
/// `index`, for an `index` inside the string.
#[verifier::external_body]
pub(crate) fn ceil_char_boundary(s: &str, index: usize) -> (at: usize)
    requires
        index <= encode_utf8(s@).len(),
    ensures
        index <= at <= encode_utf8(s@).len(),
        is_char_boundary(encode_utf8(s@), at as int),
        forall|i: int| index <= i < at ==> !is_char_boundary(encode_utf8(s@), i),
{
    s.ceil_char_boundary(index)
}

/// `str::trim`: the slice without its leading and trailing whitespace.
#[verifier::external_body]
pub(crate) fn trim(s: &str) -> (t: &str)
    ensures
        t@ == trimmed(s@),
{
    s.trim()
}

/// `Chars::next_back`: hands out the last character that is left, if any.
#[verifier::external_body]
pub(crate) fn next_back(it: &mut Chars<'_>) -> (c: Option<char>)
    ensures
        (*old(it)).remaining().len() > 0 ==> c == Some((*old(it)).remaining().last())
            && (*final(it)).remaining() == (*old(it)).remaining().drop_last(),
        (*old(it)).remaining().len() == 0 ==> c.is_none()
            && (*final(it)).remaining() == (*old(it)).remaining(),
{
    it.next_back()
}

/// `str_indices::chars::count`: the number of characters in `s`.
#[verifier::external_body]
pub(crate) fn char_count(s: &str) -> (n: usize)
    ensures
        n == s@.len(),
{
    str_indices::chars::count(s)
}

} // verus!
