//! Cutting pieces out of a line by byte offsets.

use vstd::prelude::*;
use vstd::string::*;
use vstd::utf8::*;
use crate::range::{fits, MatchRange};
use crate::utf8_facts::lemma_boundary_in_prefix;

verus! {

/// The text of each string.
pub open spec fn texts_of(strings: Seq<String>) -> Seq<Seq<char>> {
    strings.map_values(|s: String| s@)
}

/// The encoding of each text.
pub open spec fn encoded(texts: Seq<Seq<char>>) -> Seq<Seq<u8>> {
    texts.map_values(|t: Seq<char>| encode_utf8(t))
}

/// Every character of `inner` stands in `outer` at the place that `places`
/// gives for it, and the places rise as the characters follow each other.
pub open spec fn placed_in(inner: Seq<char>, outer: Seq<char>, places: Seq<int>) -> bool {
    &&& places.len() == inner.len()
    &&& forall|i: int|
        0 <= i < places.len() ==> 0 <= #[trigger] places[i] < outer.len() && outer[places[i]]
            == inner[i]
    &&& forall|i: int, j: int|
        0 <= i < j < places.len() ==> #[trigger] places[i] < #[trigger] places[j]
}

/// `outer` holds all of `inner`: the characters of `inner` occur in it, in
/// their order, with other characters in front of them, between them or
/// behind them. `outer` is `inner` with characters added and none taken
/// away or moved.
pub open spec fn embedded(inner: Seq<char>, outer: Seq<char>) -> bool {
    exists|places: Seq<int>| placed_in(inner, outer, places)
}

/// A text holds all of itself.
pub proof fn lemma_embedded_in_itself(text: Seq<char>)
    ensures
        embedded(text, text),
{
    let places = Seq::new(text.len(), |i: int| i);
    assert(placed_in(text, text, places));
}

/// What holds all of a text that holds all of another holds all of that
/// other text too.
pub proof fn lemma_embedded_further(inner: Seq<char>, middle: Seq<char>, outer: Seq<char>)
    requires
        embedded(inner, middle),
        embedded(middle, outer),
    ensures
        embedded(inner, outer),
{
    let first = choose|places: Seq<int>| placed_in(inner, middle, places);
    let second = choose|places: Seq<int>| placed_in(middle, outer, places);
    let places = Seq::new(inner.len(), |i: int| second[first[i]]);
    assert forall|i: int, j: int| 0 <= i < j < places.len() implies #[trigger] places[i]
        < #[trigger] places[j] by {
        assert(first[i] < first[j]);
    }
    assert(placed_in(inner, outer, places));
}

/// Places that rise from each to the next lie at least as far to the right
/// as they are many.
proof fn lemma_places_rise(inner: Seq<char>, outer: Seq<char>, places: Seq<int>, i: int)
    requires
        placed_in(inner, outer, places),
        0 <= i < places.len(),
    ensures
        i <= places[i],
    decreases i,
{
    if i > 0 {
        lemma_places_rise(inner, outer, places, i - 1);
        assert(places[i - 1] < places[i]);
    }
}

/// What holds all of a text is at least as long as the text.
pub proof fn lemma_embedded_is_no_shorter(inner: Seq<char>, outer: Seq<char>)
    requires
        embedded(inner, outer),
    ensures
        inner.len() <= outer.len(),
{
    if inner.len() > 0 {
        let places = choose|places: Seq<int>| placed_in(inner, outer, places);
        lemma_places_rise(inner, outer, places, inner.len() - 1);
    }
}

/// The piece of `line` between the byte offsets `start` and `end`, both of
/// which fall between characters.
pub fn slice_between<'a>(line: &'a str, start: usize, end: usize) -> (piece: &'a str)
    requires
        start <= end,
        is_char_boundary(encode_utf8(line@), start as int),
        is_char_boundary(encode_utf8(line@), end as int),
    ensures
        encode_utf8(piece@) == encode_utf8(line@).subrange(start as int, end as int),
{
    proof {
        encode_utf8_valid_utf8(line@);
        lemma_boundary_in_prefix(encode_utf8(line@), start as int, end as int);
    }
    let (head, _) = line.split_at(end);
    let (_, piece) = head.split_at(start);
    proof {
        assert(encode_utf8(head@).subrange(start as int, encode_utf8(head@).len() as int)
            =~= encode_utf8(line@).subrange(start as int, end as int));
    }
    piece
}

/// What is left of `line` from the byte offset `start` on, which falls
/// between characters.
pub fn slice_from<'a>(line: &'a str, start: usize) -> (piece: &'a str)
    requires
        is_char_boundary(encode_utf8(line@), start as int),
    ensures
        encode_utf8(piece@) == encode_utf8(line@).subrange(
            start as int,
            encode_utf8(line@).len() as int,
        ),
{
    let (_, piece) = line.split_at(start);
    piece
}

/// Two texts are laid out alike: they are equally long and their
/// characters begin at the same byte offsets, so that a byte range of one
/// covers whole characters of the other as well.
pub open spec fn same_layout(a: Seq<u8>, b: Seq<u8>) -> bool {
    &&& a.len() == b.len()
    &&& forall|i: int|
        0 <= i < a.len() ==> is_continuation_byte(#[trigger] a[i]) == is_continuation_byte(b[i])
}

/// Texts laid out alike have the same character boundaries.
pub proof fn lemma_same_layout_same_boundaries(a: Seq<u8>, b: Seq<u8>, at: int)
    requires
        valid_utf8(a),
        valid_utf8(b),
        same_layout(a, b),
    ensures
        is_char_boundary(a, at) == is_char_boundary(b, at),
{
    if 0 < at < a.len() {
        is_char_boundary_iff_not_is_continuation_byte(a, at);
        is_char_boundary_iff_not_is_continuation_byte(b, at);
        assert(is_continuation_byte(a[at]) == is_continuation_byte(b[at]));
    } else if at == a.len() {
        is_char_boundary_start_end_of_seq(a);
        is_char_boundary_start_end_of_seq(b);
    }
}

/// Ranges that can be cut out of a text can be cut out of any text that is
/// laid out like it.
pub proof fn lemma_fits_same_layout(a: Seq<u8>, b: Seq<u8>, ranges: Seq<MatchRange>)
    requires
        valid_utf8(a),
        valid_utf8(b),
        same_layout(a, b),
        fits(b, ranges),
    ensures
        fits(a, ranges),
{
    assert forall|k: int| 0 <= k < ranges.len() implies {
        &&& is_char_boundary(a, (#[trigger] ranges[k]).start as int)
        &&& is_char_boundary(a, ranges[k].end as int)
    } by {
        lemma_same_layout_same_boundaries(a, b, ranges[k].start as int);
        lemma_same_layout_same_boundaries(a, b, ranges[k].end as int);
    }
}

/// Tells whether two texts are laid out alike.
pub fn layouts_agree(a: &str, b: &str) -> (alike: bool)
    ensures
        alike == same_layout(encode_utf8(a@), encode_utf8(b@)),
{
    let left = a.as_bytes();
    let right = b.as_bytes();
    if left.len() != right.len() {
        return false;
    }
    let mut i: usize = 0;
    while i < left.len()
        invariant
            i <= left@.len(),
            left@.len() == right@.len(),
            left@ == encode_utf8(a@),
            right@ == encode_utf8(b@),
            forall|j: int|
                0 <= j < i ==> is_continuation_byte(#[trigger] left@[j]) == is_continuation_byte(
                    right@[j],
                ),
        decreases left@.len() - i,
    {
        if continues(left[i]) != continues(right[i]) {
            return false;
        }
        i += 1;
    }
    true
}

/// Tells whether a byte continues the encoding of a character that began
/// before it.
pub fn continues(byte: u8) -> (yes: bool)
    ensures
        yes == is_continuation_byte(byte),
{
    0x80 <= byte && byte <= 0xbf
}

} // verus!
