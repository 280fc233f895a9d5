//! Facts about UTF-8 text that the matcher and the renderer build on:
//! where characters begin and end, and how encoding distributes over
//! concatenation.

use vstd::prelude::*;
use vstd::utf8::*;

verus! {

/// A valid text that begins another valid text ends on a character boundary
/// of it.
pub proof fn lemma_prefix_ends_on_boundary(a: Seq<u8>, b: Seq<u8>)
    requires
        valid_utf8(a),
        valid_utf8(b),
        a.len() <= b.len(),
        b.subrange(0, a.len() as int) == a,
    ensures
        is_char_boundary(b, a.len() as int),
    decreases a.len(),
{
    if a.len() > 0 {
        let k = length_of_first_scalar(a);
        assert(a[0] == b.subrange(0, a.len() as int)[0]);
        assert(k == length_of_first_scalar(b));
        assert(k <= a.len());
        let rest_a = pop_first_scalar(a);
        let rest_b = pop_first_scalar(b);
        assert(rest_b.subrange(0, rest_a.len() as int) =~= rest_a) by {
            assert forall|i: int| 0 <= i < rest_a.len() implies rest_b[i] == rest_a[i] by {
                assert(rest_a[i] == a[i + k]);
                assert(a[i + k] == b.subrange(0, a.len() as int)[i + k]);
            }
        }
        lemma_prefix_ends_on_boundary(rest_a, rest_b);
    }
}

/// A character boundary of the text behind a boundary is a boundary of the
/// whole text.
pub proof fn lemma_boundary_behind_boundary(bytes: Seq<u8>, at: int, further: int)
    requires
        valid_utf8(bytes),
        is_char_boundary(bytes, at),
        0 <= at <= bytes.len(),
        is_char_boundary(bytes.subrange(at, bytes.len() as int), further),
    ensures
        is_char_boundary(bytes, at + further),
        0 <= further <= bytes.len() - at,
{
    let tail = bytes.subrange(at, bytes.len() as int);
    valid_utf8_split(bytes, at);
    if further == 0 {
    } else if at + further == bytes.len() {
        is_char_boundary_start_end_of_seq(bytes);
    } else {
        assert(0 < further < tail.len());
        is_char_boundary_iff_not_is_continuation_byte(tail, further);
        assert(tail[further] == bytes[at + further]);
        is_char_boundary_iff_not_is_continuation_byte(bytes, at + further);
    }
}

/// Behind a single-byte character there is a character boundary, as there
/// is in front of it.
pub proof fn lemma_boundary_behind_ascii(bytes: Seq<u8>, at: int)
    requires
        valid_utf8(bytes),
        0 <= at < bytes.len(),
        bytes[at] < 0x80,
    ensures
        is_char_boundary(bytes, at),
        is_char_boundary(bytes, at + 1),
{
    is_char_boundary_iff_not_is_continuation_byte(bytes, at);
    let tail = bytes.subrange(at, bytes.len() as int);
    valid_utf8_split(bytes, at);
    assert(tail[0] == bytes[at]);
    assert(length_of_first_scalar(tail) == 1);
    assert(is_char_boundary(pop_first_scalar(tail), 0));
    assert(is_char_boundary(tail, 1));
    lemma_boundary_behind_boundary(bytes, at, 1);
}

/// A character boundary of a text is one of every prefix of the text that
/// reaches it and itself ends on a boundary.
pub proof fn lemma_boundary_in_prefix(bytes: Seq<u8>, at: int, end: int)
    requires
        valid_utf8(bytes),
        is_char_boundary(bytes, at),
        is_char_boundary(bytes, end),
        at <= end,
    ensures
        valid_utf8(bytes.subrange(0, end)),
        is_char_boundary(bytes.subrange(0, end), at),
{
    let head = bytes.subrange(0, end);
    valid_utf8_split(bytes, end);
    if at == 0 {
    } else if at == end {
        is_char_boundary_start_end_of_seq(head);
    } else {
        is_char_boundary_iff_not_is_continuation_byte(bytes, at);
        assert(head[at] == bytes[at]);
        is_char_boundary_iff_not_is_continuation_byte(head, at);
    }
}

/// Encoding a text piece by piece gives the encoding of the whole.
pub proof fn lemma_encode_concat(a: Seq<char>, b: Seq<char>)
    ensures
        encode_utf8(a + b) == encode_utf8(a) + encode_utf8(b),
    decreases a.len(),
{
    if a.len() == 0 {
        assert(a + b =~= b);
        assert(encode_utf8(a) + encode_utf8(b) =~= encode_utf8(b));
    } else {
        assert((a + b).drop_first() =~= a.drop_first() + b);
        lemma_encode_concat(a.drop_first(), b);
        assert(encode_utf8(a + b) =~= encode_utf8(a) + encode_utf8(b));
    }
}

/// The byte of an ASCII character occurs in the encoding of a character
/// only if that is the character, and is then the whole encoding.
pub proof fn lemma_ascii_byte_in_char(ch: char, c: char)
    requires
        c as u32 <= 0x7f,
    ensures
        1 <= encode_scalar(ch as u32).len() <= 4,
        forall|k: int|
            0 <= k < encode_scalar(ch as u32).len() ==> (#[trigger] encode_scalar(ch as u32)[k]
                == c as u8 <==> ch == c),
        ch == c ==> encode_scalar(ch as u32) == seq![c as u8],
{
    let s = ch as u32;
    let t = c as u32;
    char_is_scalar(ch);
    assert(t as u8 as u32 == t) by (bit_vector)
        requires
            t <= 0x7f,
    ;
    assert(0x80 | (s & 0x3F) as u8 >= 0x80) by (bit_vector);
    assert(0x80 | ((s >> 6) & 0x3F) as u8 >= 0x80) by (bit_vector);
    assert(0x80 | ((s >> 12) & 0x3F) as u8 >= 0x80) by (bit_vector);
    if has_width_1_encoding(s) {
        assert((s & 0x7F) as u8 == s as u8 && s as u8 as u32 == s) by (bit_vector)
            requires
                s <= 0x7f,
        ;
    } else if has_width_2_encoding(s) {
        assert(0xC0 | ((s >> 6) & 0x1F) as u8 >= 0xC0) by (bit_vector);
    } else if has_width_3_encoding(s) {
        assert(0xE0 | ((s >> 12) & 0x0F) as u8 >= 0xE0) by (bit_vector);
    } else {
        assert(0xF0 | ((s >> 18) & 0x7) as u8 >= 0xF0) by (bit_vector);
    }
}

/// The byte offset at which the character with index `i` begins in the
/// encoding of `text`; for `i` the length of the text, the length of the
/// encoding.
pub open spec fn offset_of(text: Seq<char>, i: int) -> int {
    encode_utf8(text.subrange(0, i)).len() as int
}

/// A text of one character is encoded as that character is.
pub proof fn lemma_encode_single(ch: char)
    ensures
        encode_utf8(seq![ch]) == encode_scalar(ch as u32),
{
    reveal_with_fuel(encode_utf8, 2);
    assert(seq![ch].drop_first() =~= Seq::<char>::empty());
    assert(encode_utf8(seq![ch]) =~= encode_scalar(ch as u32));
}

/// A character is encoded by at least one byte.
pub proof fn lemma_encode_nonempty(text: Seq<char>)
    requires
        text.len() > 0,
    ensures
        encode_utf8(text).len() > 0,
{
    char_is_scalar(text[0]);
}

/// The encoding of a piece of a text is the piece of the encoding of the
/// text between the offsets of the two ends, which lie in the same order as
/// the ends do.
pub proof fn lemma_encode_subrange(text: Seq<char>, i: int, j: int)
    requires
        0 <= i <= j <= text.len(),
    ensures
        0 <= offset_of(text, i) <= offset_of(text, j) <= encode_utf8(text).len(),
        i < j ==> offset_of(text, i) < offset_of(text, j),
        encode_utf8(text).subrange(offset_of(text, i), offset_of(text, j)) == encode_utf8(
            text.subrange(i, j),
        ),
        offset_of(text, 0) == 0,
        offset_of(text, text.len() as int) == encode_utf8(text).len(),
{
    let head = text.subrange(0, i);
    let piece = text.subrange(i, j);
    let upto = text.subrange(0, j);
    let tail = text.subrange(j, text.len() as int);
    assert(head + piece =~= upto);
    assert(upto + tail =~= text);
    assert(text.subrange(0, text.len() as int) =~= text);
    assert(text.subrange(0, 0) =~= Seq::<char>::empty());
    lemma_encode_concat(head, piece);
    lemma_encode_concat(upto, tail);
    assert(encode_utf8(text).subrange(offset_of(text, i), offset_of(text, j)) =~= encode_utf8(
        piece,
    ));
    if i < j {
        lemma_encode_nonempty(piece);
    }
}

/// At every character boundary of the encoding of a text a character of
/// the text begins, or the text ends.
pub proof fn lemma_boundary_is_offset(text: Seq<char>, at: int) -> (i: int)
    requires
        is_char_boundary(encode_utf8(text), at),
    ensures
        0 <= i <= text.len(),
        offset_of(text, i) == at,
    decreases text.len(),
{
    let bytes = encode_utf8(text);
    encode_utf8_valid_utf8(text);
    if at == 0 {
        assert(text.subrange(0, 0) =~= Seq::<char>::empty());
        0
    } else {
        assert(text.len() > 0);
        let rest = text.drop_first();
        encode_utf8_first_scalar(text);
        let k = length_of_first_scalar(bytes);
        assert(pop_first_scalar(bytes) =~= encode_utf8(rest));
        let inner = lemma_boundary_is_offset(rest, at - k);
        assert(text.subrange(0, inner + 1).drop_first() =~= rest.subrange(0, inner));
        inner + 1
    }
}

/// Two texts with the same encoding are the same text.
pub proof fn lemma_encode_injective(a: Seq<char>, b: Seq<char>)
    requires
        encode_utf8(a) == encode_utf8(b),
    ensures
        a == b,
{
    encode_utf8_decode_utf8(a);
    encode_utf8_decode_utf8(b);
}

} // verus!
