//! Byte offsets of characters in UTF-8 encoded text.

use vstd::prelude::*;
use vstd::utf8::*;

verus! {

/// The number of bytes that the UTF-8 encoding of `s` takes.
pub open spec fn byte_len(s: Seq<char>) -> nat {
    encode_utf8(s).len()
}

/// The number of bytes that the UTF-8 encoding of the character `c` takes.
pub open spec fn char_width(c: char) -> nat {
    encode_scalar(c as u32).len()
}

/// The byte offset of the character at index `i` of `s`.
pub open spec fn byte_offset(s: Seq<char>, i: int) -> nat {
    byte_len(s.take(i))
}

/// Encoding a concatenation encodes each part in turn.
pub proof fn lemma_encode_concat(a: Seq<char>, b: Seq<char>)
    ensures
        encode_utf8(a + b) == encode_utf8(a) + encode_utf8(b),
    decreases a.len(),
{
    if a.len() == 0 {
        assert(a + b =~= b);
        assert(encode_utf8(a) =~= Seq::<u8>::empty());
        assert(encode_utf8(a) + encode_utf8(b) =~= encode_utf8(b));
    } else {
        lemma_encode_concat(a.drop_first(), b);
        assert((a + b).drop_first() =~= a.drop_first() + b);
        assert((a + b)[0] == a[0]);
        assert(encode_utf8(a + b) =~= encode_scalar(a[0] as u32) + encode_utf8(a.drop_first() + b));
        assert(encode_utf8(a) + encode_utf8(b) =~= encode_scalar(a[0] as u32) + (encode_utf8(
            a.drop_first(),
        ) + encode_utf8(b)));
    }
}

/// Every character is a Unicode scalar value: outside the surrogates and at
/// most U+10FFFF.
pub proof fn lemma_char_is_scalar(c: char)
    ensures
        c as u32 <= 0xD7FF || (0xE000 <= c as u32 <= 0x10FFFF),
{
    broadcast use char_is_scalar;
    assert(is_scalar(c as u32));
}

/// Every character takes between one and four bytes.
pub proof fn lemma_char_width(c: char)
    ensures
        1 <= char_width(c) <= 4,
{
    broadcast use char_is_scalar;
    assert(is_scalar(c as u32));
}

/// The byte length of a single character.
pub proof fn lemma_byte_len_single(c: char)
    ensures
        byte_len(seq![c]) == char_width(c),
{
    let s = seq![c];
    assert(s.drop_first() =~= Seq::<char>::empty());
    assert(encode_utf8(s.drop_first()) =~= Seq::<u8>::empty());
    assert(encode_utf8(s) =~= encode_scalar(c as u32) + Seq::<u8>::empty());
    assert(encode_scalar(c as u32) + Seq::<u8>::empty() =~= encode_scalar(c as u32));
}

/// Moving one character further adds that character's width to the offset.
pub proof fn lemma_byte_offset_step(s: Seq<char>, i: int)
    requires
        0 <= i < s.len(),
    ensures
        byte_offset(s, i + 1) == byte_offset(s, i) + char_width(s[i]),
{
    assert(s.take(i + 1) =~= s.take(i) + seq![s[i]]);
    lemma_encode_concat(s.take(i), seq![s[i]]);
    lemma_byte_len_single(s[i]);
}

/// Byte offsets grow with character indexes, strictly so, and the offset of
/// the end is the byte length of the whole text.
pub proof fn lemma_byte_offset_mono(s: Seq<char>, i: int, j: int)
    requires
        0 <= i <= j <= s.len(),
    ensures
        byte_offset(s, i) + (j - i) <= byte_offset(s, j),
        byte_offset(s, j) <= byte_len(s),
    decreases j - i,
{
    if i < j {
        lemma_byte_offset_mono(s, i, j - 1);
        lemma_byte_offset_step(s, j - 1);
        lemma_char_width(s[j - 1]);
    }
    lemma_byte_offset_end(s, j);
}

/// The offset of any character is at most the byte length of the text.
proof fn lemma_byte_offset_end(s: Seq<char>, j: int)
    requires
        0 <= j <= s.len(),
    ensures
        byte_offset(s, j) <= byte_len(s),
{
    assert(s =~= s.take(j) + s.skip(j));
    lemma_encode_concat(s.take(j), s.skip(j));
}

/// In valid UTF-8, the index after a one-byte character that starts at a
/// character boundary is a character boundary too.
pub proof fn lemma_boundary_after_ascii(bytes: Seq<u8>, p: int)
    requires
        valid_utf8(bytes),
        0 <= p < bytes.len(),
        bytes[p] < 0x80,
        is_char_boundary(bytes, p),
    ensures
        is_char_boundary(bytes, p + 1),
    decreases bytes.len(),
{
    reveal_with_fuel(is_char_boundary, 2);
    let l = length_of_first_scalar(bytes);
    let tail = pop_first_scalar(bytes);
    if p > 0 {
        assert(tail[p - l] == bytes[p]);
        lemma_boundary_after_ascii(tail, p - l);
    }
}

/// In valid UTF-8, the index after a line feed is a character boundary.
pub proof fn lemma_boundary_after_line_feed(bytes: Seq<u8>, p: int)
    requires
        valid_utf8(bytes),
        0 < p <= bytes.len(),
        bytes[p - 1] == 10u8,
    ensures
        is_char_boundary(bytes, p),
{
    is_char_boundary_iff_not_is_continuation_byte(bytes, p - 1);
    lemma_boundary_after_ascii(bytes, p - 1);
}

/// Returns the number of bytes that the UTF-8 encoding of `c` takes.
pub fn char_len_utf8(c: char) -> (n: usize)
    ensures
        n == char_width(c),
        1 <= n <= 4,
{
    proof {
        broadcast use char_is_scalar;
        assert(is_scalar(c as u32));
    }
    let v = c as u32;
    if v < 0x80 {
        1
    } else if v < 0x800 {
        2
    } else if v < 0x10000 {
        3
    } else {
        4
    }
}

/// Two character indexes with the same byte offset are the same index.
pub proof fn lemma_byte_offset_injective(s: Seq<char>, i: int, j: int)
    requires
        0 <= i <= s.len(),
        0 <= j <= s.len(),
        byte_offset(s, i) == byte_offset(s, j),
    ensures
        i == j,
{
    if i < j {
        lemma_byte_offset_mono(s, i, j);
    } else if j < i {
        lemma_byte_offset_mono(s, j, i);
    }
}

/// The byte offset of a character starts a character of the encoding.
pub proof fn lemma_offset_is_boundary(s: Seq<char>, i: int)
    requires
        0 <= i <= s.len(),
    ensures
        is_char_boundary(encode_utf8(s), byte_offset(s, i) as int),
    decreases i,
{
    let bytes = encode_utf8(s);
    encode_utf8_valid_utf8(s);
    if i == 0 {
        assert(s.take(0) =~= Seq::<char>::empty());
        assert(byte_offset(s, 0) == 0);
    } else {
        let rest = s.drop_first();
        encode_utf8_first_scalar(s);
        encode_utf8_valid_utf8(rest);
        assert(pop_first_scalar(bytes) =~= encode_utf8(rest));
        assert(s.take(i) =~= seq![s[0]] + rest.take(i - 1));
        lemma_encode_concat(seq![s[0]], rest.take(i - 1));
        lemma_byte_len_single(s[0]);
        lemma_offset_is_boundary(rest, i - 1);
        lemma_byte_offset_mono(s, i, s.len() as int);
        lemma_char_width(s[0]);
        reveal_with_fuel(is_char_boundary, 2);
    }
}

/// Returns the part of `s` between the byte offsets `start` and `end`, which
/// must be the offsets of characters of `s`.
pub fn str_slice(s: &str, start: usize, end: usize) -> (r: &str)
    requires
        exists|i: int, j: int|
            0 <= i <= j <= s@.len() && byte_offset(s@, i) == start && byte_offset(s@, j) == end,
    ensures
        forall|i: int, j: int|
            0 <= i <= j <= s@.len() && byte_offset(s@, i) == start && byte_offset(s@, j) == end
                ==> r@ == s@.subrange(i, j),
{
    let ghost (i, j) = choose|i: int, j: int|
        0 <= i <= j <= s@.len() && byte_offset(s@, i) == start && byte_offset(s@, j) == end;
    let ghost b = encode_utf8(s@);
    proof {
        encode_utf8_valid_utf8(s@);
        lemma_offset_is_boundary(s@, i);
        lemma_offset_is_boundary(s@, j);
        lemma_byte_offset_mono(s@, j, s@.len() as int);
        lemma_byte_offset_mono(s@, i, j);
        valid_utf8_split(b, end as int);
    }
    let (head, _) = s.split_at(end);
    proof {
        let h = b.subrange(0, end as int);
        assert(encode_utf8(head@) == h);
        if start < end {
            is_char_boundary_iff_not_is_continuation_byte(b, start as int);
            is_char_boundary_iff_not_is_continuation_byte(h, start as int);
        } else {
            is_char_boundary_start_end_of_seq(h);
        }
    }
    let (_, r) = head.split_at(start);
    proof {
        let mid = s@.subrange(i, j);
        assert(s@.take(j) =~= s@.take(i) + mid);
        lemma_encode_concat(s@.take(i), mid);
        assert(s@ =~= s@.take(j) + s@.skip(j));
        lemma_encode_concat(s@.take(j), s@.skip(j));
        assert(encode_utf8(r@) =~= encode_utf8(mid));
        encode_utf8_decode_utf8(r@);
        encode_utf8_decode_utf8(mid);
        assert forall|i2: int, j2: int|
            0 <= i2 <= j2 <= s@.len() && byte_offset(s@, i2) == start && byte_offset(s@, j2) == end
                implies r@ == s@.subrange(i2, j2) by {
            lemma_byte_offset_injective(s@, i, i2);
            lemma_byte_offset_injective(s@, j, j2);
        }
    }
    r
}

} // verus!
