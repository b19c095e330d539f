//! Byte offsets into the UTF-8 form of a text, counted from character positions.

use vstd::prelude::*;
use vstd::utf8::*;

verus! {

/// The number of bytes that the first `i` characters of `text` occupy in UTF-8.
pub open spec fn byte_offset(text: Seq<char>, i: int) -> nat {
    encode_utf8(text.take(i)).len()
}

/// The number of bytes of the UTF-8 encoding of one character.
pub open spec fn char_width(c: char) -> nat {
    let v = c as u32;
    if v < 0x80 {
        1
    } else if v < 0x800 {
        2
    } else if v < 0x10000 {
        3
    } else {
        4
    }
}

/// Computes the number of bytes that `c` takes in UTF-8.
pub fn utf8_width(c: char) -> (n: usize)
    ensures
        n == char_width(c),
        1 <= n <= 4,
{
    let v: u32 = c as u32;
    if v < 0x80 {
        1
    } else if v < 0x800 {
        2
    } else if v < 0x10000 {
        3
    } else {
        4
    }
}

/// Encoding distributes over concatenation.
pub proof fn lemma_encode_concat(a: Seq<char>, b: Seq<char>)
    ensures
        encode_utf8(a + b) == encode_utf8(a) + encode_utf8(b),
    decreases a.len(),
{
    if a.len() == 0 {
        assert(a + b =~= b);
        assert(encode_utf8(a) + encode_utf8(b) =~= encode_utf8(b));
    } else {
        assert((a + b).drop_first() =~= a.drop_first() + b);
        lemma_encode_concat(a.drop_first(), b);
        assert(encode_utf8(a + b) =~= encode_utf8(a) + encode_utf8(b));
    }
}

/// A single character encodes to as many bytes as its width.
pub proof fn lemma_encode_single(c: char)
    ensures
        encode_utf8(seq![c]) == encode_scalar(c as u32),
        encode_utf8(seq![c]).len() == char_width(c),
{
    char_is_scalar(c);
    let s = seq![c];
    assert(s.drop_first() =~= Seq::<char>::empty());
    assert(encode_utf8(s.drop_first()) =~= Seq::<u8>::empty());
    assert(encode_utf8(s) =~= encode_scalar(c as u32));
}

/// No character takes more than four bytes.
pub proof fn lemma_encoded_len_bound(text: Seq<char>)
    ensures
        encode_utf8(text).len() <= 4 * text.len(),
    decreases text.len(),
{
    if text.len() > 0 {
        char_is_scalar(text[0]);
        lemma_encoded_len_bound(text.drop_first());
    }
}

/// The offset of the start of a text is zero, the offset of its end is the
/// length of its encoding.
pub proof fn lemma_byte_offset_bounds(text: Seq<char>)
    ensures
        byte_offset(text, 0) == 0,
        byte_offset(text, text.len() as int) == encode_utf8(text).len(),
{
    assert(text.take(0) =~= Seq::<char>::empty());
    assert(text.take(text.len() as int) =~= text);
}

/// Passing over one character moves the offset by that character's width.
pub proof fn lemma_byte_offset_step(text: Seq<char>, i: int)
    requires
        0 <= i < text.len(),
    ensures
        byte_offset(text, i + 1) == byte_offset(text, i) + char_width(text[i]),
{
    assert(text.take(i + 1) =~= text.take(i) + seq![text[i]]);
    lemma_encode_concat(text.take(i), seq![text[i]]);
    lemma_encode_single(text[i]);
}

/// Offsets grow with positions, strictly so.
pub proof fn lemma_byte_offset_increasing(text: Seq<char>, i: int, j: int)
    requires
        0 <= i <= j <= text.len(),
    ensures
        byte_offset(text, i) <= byte_offset(text, j),
        i < j ==> byte_offset(text, i) < byte_offset(text, j),
        byte_offset(text, j) - byte_offset(text, i) == encode_utf8(text.subrange(i, j)).len(),
{
    assert(text.take(j) =~= text.take(i) + text.subrange(i, j));
    lemma_encode_concat(text.take(i), text.subrange(i, j));
    if i < j {
        let rest = text.subrange(i, j);
        char_is_scalar(rest[0]);
    }
}

/// The bytes between the offsets of two positions are the encoding of the
/// characters between the positions.
pub proof fn lemma_encode_subrange(text: Seq<char>, i: int, j: int)
    requires
        0 <= i <= j <= text.len(),
    ensures
        byte_offset(text, i) <= byte_offset(text, j) <= encode_utf8(text).len(),
        encode_utf8(text).subrange(byte_offset(text, i) as int, byte_offset(text, j) as int)
            == encode_utf8(text.subrange(i, j)),
{
    let head = text.take(i);
    let mid = text.subrange(i, j);
    let tail = text.subrange(j, text.len() as int);
    assert(text.take(j) =~= head + mid);
    assert(text =~= (head + mid) + tail);
    lemma_encode_concat(head, mid);
    lemma_encode_concat(head + mid, tail);
    assert(encode_utf8(text) == (encode_utf8(head) + encode_utf8(mid)) + encode_utf8(tail));
    assert(encode_utf8(text).subrange(
        encode_utf8(head).len() as int,
        (encode_utf8(head) + encode_utf8(mid)).len() as int,
    ) =~= encode_utf8(mid));
}

/// The offset of every character position is a character boundary of the
/// encoded text.
pub proof fn lemma_byte_offset_is_boundary(text: Seq<char>, i: int)
    requires
        0 <= i <= text.len(),
    ensures
        is_char_boundary(encode_utf8(text), byte_offset(text, i) as int),
    decreases text.len(),
{
    broadcast use encode_utf8_valid_utf8;

    let bytes = encode_utf8(text);
    if i == 0 {
        lemma_byte_offset_bounds(text);
    } else {
        let rest = text.drop_first();
        encode_utf8_first_scalar(text);
        assert(pop_first_scalar(bytes) =~= encode_utf8(rest));
        assert(text.take(i) =~= seq![text[0]] + rest.take(i - 1));
        lemma_encode_concat(seq![text[0]], rest.take(i - 1));
        lemma_encode_single(text[0]);
        lemma_encode_subrange(text, 0, i);
        lemma_byte_offset_bounds(text);
        lemma_byte_offset_is_boundary(rest, i - 1);
    }
}

/// Decoding the bytes between the offsets of two positions gives back the
/// characters between the positions.
pub proof fn lemma_decode_subrange(text: Seq<char>, i: int, j: int)
    requires
        0 <= i <= j <= text.len(),
    ensures
        decode_utf8(
            encode_utf8(text).subrange(byte_offset(text, i) as int, byte_offset(text, j) as int),
        ) == text.subrange(i, j),
{
    lemma_encode_subrange(text, i, j);
    encode_utf8_decode_utf8(text.subrange(i, j));
}

} // verus!
