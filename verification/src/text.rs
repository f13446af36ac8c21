//! Characters and their UTF-8 encoding: how positions counted in characters
//! relate to positions counted in bytes.

use vstd::prelude::*;
use vstd::utf8::*;

use crate::stdstr::white_space;

verus! {

/// Number of bytes in the UTF-8 encoding of `s`.
pub open spec fn width(s: Seq<char>) -> nat {
    encode_utf8(s).len()
}

/// Number of bytes in the UTF-8 encoding of `c`.
pub open spec fn char_width(c: char) -> nat {
    encode_scalar(c as u32).len()
}

/// Number of characters that the first `b` bytes of the encoding of `s` hold.
pub open spec fn chars_before(s: Seq<char>, b: int) -> int {
    decode_utf8(encode_utf8(s).subrange(0, b)).len() as int
}

/// `s` without its leading whitespace.
pub open spec fn trimmed_start(s: Seq<char>) -> Seq<char>
    decreases s.len(),
{
    if s.len() > 0 && white_space(s[0]) {
        trimmed_start(s.drop_first())
    } else {
        s
    }
}

/// `s` without its trailing whitespace.
pub open spec fn trimmed_end(s: Seq<char>) -> Seq<char>
    decreases s.len(),
{
    if s.len() > 0 && white_space(s.last()) {
        trimmed_end(s.drop_last())
    } else {
        s
    }
}

/// `s` without its leading and trailing whitespace.
pub open spec fn trimmed(s: Seq<char>) -> Seq<char> {
    trimmed_end(trimmed_start(s))
}

/// A character takes between one and four bytes.
pub proof fn lemma_char_width_bounds(c: char)
    ensures
        1 <= char_width(c) <= 4,
        width(seq![c]) == char_width(c),
{
    reveal_with_fuel(encode_utf8, 2);
    assert(seq![c].drop_first() =~= Seq::<char>::empty());
    assert(encode_utf8(seq![c]) =~= encode_scalar(c as u32));
}

/// Encoding distributes over concatenation.
pub proof fn lemma_encode_concat(a: Seq<char>, b: Seq<char>)
    ensures
        encode_utf8(a + b) == encode_utf8(a) + encode_utf8(b),
        width(a + b) == width(a) + width(b),
    decreases a.len(),
{
    if a.len() == 0 {
        assert(a + b =~= b);
        assert(encode_utf8(a) + encode_utf8(b) =~= encode_utf8(b));
    } else {
        lemma_encode_concat(a.drop_first(), b);
        assert((a + b).drop_first() =~= a.drop_first() + b);
        assert(encode_utf8(a + b) =~= encode_utf8(a) + encode_utf8(b));
    }
}

/// Two sequences with the same encoding are the same sequence.
pub proof fn lemma_encode_injective(a: Seq<char>, b: Seq<char>)
    requires
        encode_utf8(a) == encode_utf8(b),
    ensures
        a == b,
{
    encode_utf8_decode_utf8(a);
    encode_utf8_decode_utf8(b);
}

/// The encoding of `s` is the encoding of its first `k` characters followed
/// by the encoding of the rest.
pub proof fn lemma_encode_split(s: Seq<char>, k: int)
    requires
        0 <= k <= s.len(),
    ensures
        width(s) == width(s.take(k)) + width(s.skip(k)),
        encode_utf8(s).subrange(0, width(s.take(k)) as int) == encode_utf8(s.take(k)),
        encode_utf8(s).subrange(width(s.take(k)) as int, width(s) as int) == encode_utf8(s.skip(k)),
{
    lemma_encode_concat(s.take(k), s.skip(k));
    assert(s.take(k) + s.skip(k) =~= s);
    let a = encode_utf8(s.take(k));
    let b = encode_utf8(s.skip(k));
    assert((a + b).subrange(0, a.len() as int) =~= a);
    assert((a + b).subrange(a.len() as int, (a + b).len() as int) =~= b);
}

/// Where one valid encoding ends and the next begins is a character boundary.
proof fn lemma_boundary_at_join(a: Seq<u8>, b: Seq<u8>)
    requires
        valid_utf8(a),
        valid_utf8(b),
    ensures
        is_char_boundary(a + b, a.len() as int),
    decreases a.len(),
{
    valid_utf8_concat(a, b);
    if a.len() == 0 {
    } else {
        let rest = pop_first_scalar(a);
        assert(pop_first_scalar(a + b) =~= rest + b);
        assert(length_of_first_scalar(a + b) == length_of_first_scalar(a));
        lemma_boundary_at_join(rest, b);
    }
}

/// The end of every prefix of characters is a character boundary of the
/// encoding, and it is the boundary that has exactly those characters before it.
pub proof fn lemma_prefix_is_boundary(s: Seq<char>, k: int)
    requires
        0 <= k <= s.len(),
    ensures
        is_char_boundary(encode_utf8(s), width(s.take(k)) as int),
        chars_before(s, width(s.take(k)) as int) == k,
        width(s.take(k)) <= width(s),
{
    lemma_encode_split(s, k);
    lemma_encode_concat(s.take(k), s.skip(k));
    assert(s.take(k) + s.skip(k) =~= s);
    encode_utf8_valid_utf8(s.take(k));
    encode_utf8_valid_utf8(s.skip(k));
    lemma_boundary_at_join(encode_utf8(s.take(k)), encode_utf8(s.skip(k)));
    encode_utf8_decode_utf8(s.take(k));
}

/// A character boundary of the encoding is the end of a prefix of characters.
pub proof fn lemma_boundary_is_prefix(s: Seq<char>, b: int)
    requires
        is_char_boundary(encode_utf8(s), b),
    ensures
        0 <= chars_before(s, b) <= s.len(),
        0 <= b <= width(s),
        width(s.take(chars_before(s, b))) == b,
        encode_utf8(s.take(chars_before(s, b))) == encode_utf8(s).subrange(0, b),
        encode_utf8(s.skip(chars_before(s, b))) == encode_utf8(s).subrange(b, width(s) as int),
{
    let bytes = encode_utf8(s);
    encode_utf8_valid_utf8(s);
    assert(0 <= b <= bytes.len()) by {
        reveal_with_fuel(is_char_boundary, 1);
    }
    valid_utf8_split(bytes, b);
    decode_utf8_split(bytes, b);
    encode_utf8_decode_utf8(s);
    let head = bytes.subrange(0, b);
    let tail = bytes.subrange(b, bytes.len() as int);
    let p = decode_utf8(head);
    let q = decode_utf8(tail);
    assert(s =~= p + q);
    let k = p.len() as int;
    assert(s.take(k) =~= p);
    assert(s.skip(k) =~= q);
    decode_utf8_encode_utf8(head);
    decode_utf8_encode_utf8(tail);
}

/// The width of a prefix grows by the width of each character added to it.
pub proof fn lemma_width_step(s: Seq<char>, k: int)
    requires
        0 <= k < s.len(),
    ensures
        width(s.take(k + 1)) == width(s.take(k)) + char_width(s[k]),
        width(s.take(k)) < width(s.take(k + 1)),
{
    assert(s.take(k + 1) =~= s.take(k) + seq![s[k]]);
    lemma_encode_concat(s.take(k), seq![s[k]]);
    lemma_char_width_bounds(s[k]);
}

/// Longer prefixes are wider.
pub proof fn lemma_width_monotone(s: Seq<char>, i: int, j: int)
    requires
        0 <= i <= j <= s.len(),
    ensures
        width(s.take(i)) <= width(s.take(j)),
        i < j ==> width(s.take(i)) < width(s.take(j)),
    decreases j - i,
{
    if i < j {
        lemma_width_monotone(s, i, j - 1);
        lemma_width_step(s, j - 1);
    }
}

/// Replacing the characters between `i` and `j` by `m` replaces the bytes
/// between the ends of the two prefixes by the encoding of `m`.
pub proof fn lemma_encode_splice(s: Seq<char>, i: int, j: int, m: Seq<char>)
    requires
        0 <= i <= j <= s.len(),
    ensures
        encode_utf8(s).subrange(0, width(s.take(i)) as int) + encode_utf8(m) + encode_utf8(
            s,
        ).subrange(width(s.take(j)) as int, width(s) as int) == encode_utf8(
            s.take(i) + m + s.skip(j),
        ),
{
    lemma_encode_split(s, i);
    lemma_encode_split(s, j);
    lemma_encode_concat(s.take(i), m);
    lemma_encode_concat(s.take(i) + m, s.skip(j));
}

/// The character whose encoding starts at the end of the prefix of `k`
/// characters is the character at index `k`.
pub proof fn lemma_char_at_boundary(s: Seq<char>, k: int, c: char)
    requires
        0 <= k < s.len(),
        width(s.take(k)) + char_width(c) <= width(s),
        encode_utf8(s).subrange(
            width(s.take(k)) as int,
            (width(s.take(k)) + char_width(c)) as int,
        ) == encode_utf8(seq![c]),
    ensures
        c == s[k],
{
    lemma_encode_split(s, k);
    let rest = s.skip(k);
    let x = encode_utf8(rest);
    let y = encode_utf8(seq![c]);
    lemma_char_width_bounds(c);
    encode_utf8_first_scalar(rest);
    encode_utf8_first_scalar(seq![c]);
    let b = width(s.take(k)) as int;
    assert(x.subrange(0, char_width(c) as int) =~= encode_utf8(s).subrange(
        b,
        b + char_width(c) as int,
    ));
    assert(forall|i: int| 0 <= i < y.len() ==> x[i] == #[trigger] y[i]) by {
        assert forall|i: int| 0 <= i < y.len() implies x[i] == #[trigger] y[i] by {
            assert(x.subrange(0, char_width(c) as int)[i] == x[i]);
        }
    }
    assert(decode_first_scalar(x) == decode_first_scalar(y));
    char_u32_cast(c, decode_first_scalar(y));
    char_u32_cast(rest[0], decode_first_scalar(x));
}

/// The boundary found by looking backwards from the byte before the end of
/// the prefix of `k` characters is the end of the prefix of `k - 1`.
pub proof fn lemma_floor_is_previous(s: Seq<char>, k: int, at: int)
    requires
        0 < k <= s.len(),
        at <= width(s.take(k)) - 1,
        is_char_boundary(encode_utf8(s), at),
        forall|i: int| at < i <= width(s.take(k)) - 1 ==> !is_char_boundary(encode_utf8(s), i),
    ensures
        at == width(s.take(k - 1)),
        chars_before(s, at) == k - 1,
{
    lemma_prefix_is_boundary(s, k - 1);
    lemma_width_step(s, k - 1);
    lemma_boundary_is_prefix(s, at);
    let j = chars_before(s, at);
    if j >= k {
        lemma_width_monotone(s, k, j);
    }
    if j < k - 1 {
        lemma_width_monotone(s, j, k - 1);
    }
}

/// The boundary found by looking forwards from the byte after the end of the
/// prefix of `k` characters is the end of the prefix of `k + 1`.
pub proof fn lemma_ceil_is_next(s: Seq<char>, k: int, at: int)
    requires
        0 <= k < s.len(),
        width(s.take(k)) + 1 <= at,
        is_char_boundary(encode_utf8(s), at),
        forall|i: int| width(s.take(k)) + 1 <= i < at ==> !is_char_boundary(encode_utf8(s), i),
    ensures
        at == width(s.take(k + 1)),
        chars_before(s, at) == k + 1,
{
    lemma_prefix_is_boundary(s, k + 1);
    lemma_width_step(s, k);
    lemma_boundary_is_prefix(s, at);
    let j = chars_before(s, at);
    if j <= k {
        lemma_width_monotone(s, j, k);
    }
    if j > k + 1 {
        lemma_width_monotone(s, k + 1, j);
    }
}

/// How many characters of whitespace `s` starts with.
pub open spec fn leading_space(s: Seq<char>) -> int
    decreases s.len(),
{
    if s.len() > 0 && white_space(s[0]) {
        1 + leading_space(s.drop_first())
    } else {
        0
    }
}

/// Trimming at the start drops the whitespace that `s` starts with, and
/// nothing else.
pub proof fn lemma_trimmed_start(s: Seq<char>)
    ensures
        0 <= leading_space(s) <= s.len(),
        trimmed_start(s) == s.skip(leading_space(s)),
        forall|i: int| 0 <= i < leading_space(s) ==> white_space(#[trigger] s[i]),
        leading_space(s) < s.len() ==> !white_space(s[leading_space(s)]),
    decreases s.len(),
{
    if s.len() > 0 && white_space(s[0]) {
        let rest = s.drop_first();
        lemma_trimmed_start(rest);
        assert(rest.skip(leading_space(rest)) =~= s.skip(leading_space(s)));
        assert forall|i: int| 0 <= i < leading_space(s) implies white_space(#[trigger] s[i]) by {
            if i > 0 {
                assert(s[i] == rest[i - 1]);
            }
        }
        if leading_space(s) < s.len() {
            assert(s[leading_space(s)] == rest[leading_space(rest)]);
        }
    } else {
        assert(s.skip(0) =~= s);
    }
}

/// Trimming at the end drops the whitespace that `s` ends with, and nothing
/// else.
pub proof fn lemma_trimmed_end(s: Seq<char>)
    ensures
        trimmed_end(s).len() <= s.len(),
        trimmed_end(s) == s.take(trimmed_end(s).len() as int),
        forall|i: int| trimmed_end(s).len() <= i < s.len() ==> white_space(#[trigger] s[i]),
        trimmed_end(s).len() > 0 ==> !white_space(trimmed_end(s).last()),
    decreases s.len(),
{
    if s.len() > 0 && white_space(s.last()) {
        let rest = s.drop_last();
        lemma_trimmed_end(rest);
        assert(rest.take(trimmed_end(rest).len() as int) =~= s.take(trimmed_end(s).len() as int));
        assert forall|i: int| trimmed_end(s).len() <= i < s.len() implies white_space(
            #[trigger] s[i],
        ) by {
            if i < rest.len() {
                assert(s[i] == rest[i]);
            }
        }
    } else {
        assert(s.take(s.len() as int) =~= s);
    }
}

/// The trimmed text is the stretch of `s` between its leading and its
/// trailing whitespace: it neither starts nor ends with whitespace, and all
/// that was left out is whitespace.
pub proof fn lemma_trimmed(s: Seq<char>)
    ensures
        leading_space(s) + trimmed(s).len() <= s.len(),
        trimmed(s) == s.subrange(leading_space(s), leading_space(s) + trimmed(s).len()),
        forall|i: int| 0 <= i < leading_space(s) ==> white_space(#[trigger] s[i]),
        forall|i: int|
            leading_space(s) + trimmed(s).len() <= i < s.len() ==> white_space(#[trigger] s[i]),
        trimmed(s).len() > 0 ==> !white_space(trimmed(s)[0]) && !white_space(trimmed(s).last()),
{
    let lead = leading_space(s);
    let mid = trimmed_start(s);
    lemma_trimmed_start(s);
    lemma_trimmed_end(mid);
    let n = trimmed(s).len() as int;
    assert(mid.take(n) =~= s.subrange(lead, lead + n));
    assert forall|i: int| lead + n <= i < s.len() implies white_space(#[trigger] s[i]) by {
        assert(s[i] == mid[i - lead]);
    }
    if n > 0 {
        assert(trimmed(s)[0] == s[lead]);
    }
}

/// A text that neither starts nor ends with whitespace is its own trimmed
/// text, and so trimming twice is trimming once.
pub proof fn lemma_trimmed_idempotent(s: Seq<char>)
    ensures
        trimmed(trimmed(s)) == trimmed(s),
{
    lemma_trimmed(s);
    let r = trimmed(s);
    assert(trimmed_start(r) == r);
    assert(trimmed_end(r) == r);
}

} // verus!
