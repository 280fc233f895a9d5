//! Rendering: a line with its matches emphasized.

use vstd::prelude::*;
use vstd::string::*;
use vstd::utf8::*;
use crate::range::{fits, ordered_within, MatchRange};
use crate::style::{emphasize, StyleSpec};
use crate::text::{
    embedded, encoded, lemma_embedded_is_no_shorter, slice_between, slice_from, texts_of,
};
use crate::utf8_facts::lemma_encode_concat;

verus! {

/// Where the plain text in front of the range at position `k` begins: at
/// the end of the range before it, or at the start of the line.
pub open spec fn gap_start(ranges: Seq<MatchRange>, k: int) -> int {
    if k <= 0 {
        0
    } else {
        ranges[k - 1].end as int
    }
}

/// The output up to and including the fragment that stands for the range at
/// position `k - 1`: each of the first `k` ranges is replaced by its
/// fragment, and the plain text in front of each is kept.
pub open spec fn spliced_upto(
    line: Seq<u8>,
    ranges: Seq<MatchRange>,
    fragments: Seq<Seq<u8>>,
    k: int,
) -> Seq<u8>
    decreases k,
{
    if k <= 0 {
        Seq::empty()
    } else {
        spliced_upto(line, ranges, fragments, k - 1) + line.subrange(
            gap_start(ranges, k - 1),
            ranges[k - 1].start as int,
        ) + fragments[k - 1]
    }
}

/// The line with every range replaced by the fragment of the same position,
/// by offset: the text outside the ranges is kept as it is, and no fragment
/// is ever searched or altered.
pub open spec fn spliced(line: Seq<u8>, ranges: Seq<MatchRange>, fragments: Seq<Seq<u8>>) -> Seq<
    u8,
> {
    spliced_upto(line, ranges, fragments, ranges.len() as int) + line.subrange(
        gap_start(ranges, ranges.len() as int),
        line.len() as int,
    )
}

/// The encoding of the line `line` rendered with the given fragments.
pub open spec fn rendered_with(
    line: Seq<char>,
    ranges: Seq<MatchRange>,
    fragments: Seq<Seq<char>>,
) -> Seq<u8> {
    spliced(encode_utf8(line), ranges, encoded(fragments))
}

/// The fragment holds all of the text that the range covers in the line:
/// it is that text with characters added, none taken away or moved.
pub open spec fn holds_piece(line: Seq<u8>, range: MatchRange, fragment: Seq<char>) -> bool {
    exists|piece: Seq<char>|
        encode_utf8(piece) == line.subrange(range.start as int, range.end as int)
            && #[trigger] embedded(piece, fragment)
}

/// `out` is `line` with each range replaced by a fragment that holds all of
/// the text of the range: the matched text is wrapped, never cut out or
/// exchanged. Where no markup is added at all, `out` is the line itself.
pub open spec fn is_rendering(line: Seq<char>, ranges: Seq<MatchRange>, out: Seq<char>) -> bool {
    exists|fragments: Seq<Seq<char>>|
        {
            &&& fragments.len() == ranges.len()
            &&& forall|k: int|
                0 <= k < ranges.len() ==> holds_piece(
                    encode_utf8(line),
                    ranges[k],
                    #[trigger] fragments[k],
                )
            &&& #[trigger] rendered_with(line, ranges, fragments) == encode_utf8(out)
        }
}

/// A match is never cut out of its line: the fragment that stands for a
/// range that is not empty is not empty either.
pub proof fn lemma_match_is_kept(line: Seq<u8>, range: MatchRange, fragment: Seq<char>)
    requires
        holds_piece(line, range, fragment),
        range.start < range.end <= line.len(),
    ensures
        fragment.len() > 0,
{
    let piece = choose|piece: Seq<char>|
        encode_utf8(piece) == line.subrange(range.start as int, range.end as int)
            && #[trigger] embedded(piece, fragment);
    assert(piece.len() > 0) by {
        if piece.len() == 0 {
            assert(encode_utf8(piece).len() == 0);
        }
    }
    lemma_embedded_is_no_shorter(piece, fragment);
}

/// The pieces of the line that the ranges cover.
pub open spec fn covered_pieces(line: Seq<u8>, ranges: Seq<MatchRange>) -> Seq<Seq<u8>> {
    Seq::new(ranges.len(), |k: int| line.subrange(ranges[k].start as int, ranges[k].end as int))
}

/// Splicing its own pieces into a line as far as the range at position
/// `k - 1` gives the line as far as the end of that range.
proof fn lemma_splice_own_pieces_upto(line: Seq<u8>, ranges: Seq<MatchRange>, k: int)
    requires
        ordered_within(ranges, line.len() as int),
        0 <= k <= ranges.len(),
    ensures
        spliced_upto(line, ranges, covered_pieces(line, ranges), k) == line.subrange(
            0,
            gap_start(ranges, k),
        ),
    decreases k,
{
    if k > 0 {
        lemma_splice_own_pieces_upto(line, ranges, k - 1);
        assert(spliced_upto(line, ranges, covered_pieces(line, ranges), k) =~= line.subrange(
            0,
            gap_start(ranges, k),
        ));
    }
}

/// A line into which its own pieces are spliced is the line unchanged: a
/// rendering in which nothing is styled shows the line as it stands.
pub proof fn lemma_splice_own_pieces(line: Seq<u8>, ranges: Seq<MatchRange>)
    requires
        ordered_within(ranges, line.len() as int),
    ensures
        spliced(line, ranges, covered_pieces(line, ranges)) == line,
{
    lemma_splice_own_pieces_upto(line, ranges, ranges.len() as int);
}

/// Replaces each range of `line` by the fragment of the same position and
/// keeps the rest of the line.
pub fn splice(line: &str, ranges: &Vec<MatchRange>, fragments: &Vec<String>) -> (out: String)
    requires
        fits(encode_utf8(line@), ranges@),
        fragments.len() == ranges.len(),
    ensures
        encode_utf8(out@) == rendered_with(line@, ranges@, texts_of(fragments@)),
{
    let ghost bytes = encode_utf8(line@);
    let ghost pieces = encoded(texts_of(fragments@));
    let mut out = String::new();
    let mut cursor: usize = 0;
    let mut k: usize = 0;
    proof {
        encode_utf8_valid_utf8(line@);
        is_char_boundary_start_end_of_seq(bytes);
    }
    while k < ranges.len()
        invariant
            k <= ranges.len(),
            fragments.len() == ranges.len(),
            bytes == encode_utf8(line@),
            pieces == encoded(texts_of(fragments@)),
            valid_utf8(bytes),
            fits(bytes, ranges@),
            cursor == gap_start(ranges@, k as int),
            is_char_boundary(bytes, cursor as int),
            encode_utf8(out@) == spliced_upto(bytes, ranges@, pieces, k as int),
        decreases ranges.len() - k,
    {
        let range = ranges[k];
        let gap = slice_between(line, cursor, range.start);
        let ghost before = out@;
        out.append(gap);
        out.append(fragments[k].as_str());
        proof {
            lemma_encode_concat(before, gap@);
            lemma_encode_concat(before + gap@, fragments@[k as int]@);
        }
        cursor = range.end;
        k += 1;
    }
    let rest = slice_from(line, cursor);
    proof {
        lemma_encode_concat(out@, rest@);
    }
    out.append(rest);
    out
}

/// Cuts out of `line` the piece that each range covers.
pub fn cut_pieces<'a>(line: &'a str, ranges: &Vec<MatchRange>) -> (pieces: Vec<&'a str>)
    requires
        fits(encode_utf8(line@), ranges@),
    ensures
        pieces.len() == ranges.len(),
        forall|k: int|
            0 <= k < pieces.len() ==> encode_utf8((#[trigger] pieces[k])@) == covered_pieces(
                encode_utf8(line@),
                ranges@,
            )[k],
{
    let mut pieces: Vec<&'a str> = Vec::new();
    let mut k: usize = 0;
    while k < ranges.len()
        invariant
            k <= ranges.len(),
            pieces.len() == k,
            fits(encode_utf8(line@), ranges@),
            forall|j: int|
                0 <= j < k ==> encode_utf8((#[trigger] pieces[j])@) == covered_pieces(
                    encode_utf8(line@),
                    ranges@,
                )[j],
        decreases ranges.len() - k,
    {
        let range = ranges[k];
        pieces.push(slice_between(line, range.start, range.end));
        k += 1;
    }
    pieces
}

/// Renders `line` with each of `ranges` emphasized in `style`. Every range
/// is cut out of the line itself and styled on its own; the styled
/// fragments are then spliced in by offset, so that no fragment is ever
/// searched or styled again. Each fragment holds all of the text that it
/// stands for, whatever markup was added to it.
pub fn render(line: &str, ranges: &Vec<MatchRange>, style: &StyleSpec) -> (out: String)
    requires
        fits(encode_utf8(line@), ranges@),
    ensures
        is_rendering(line@, ranges@, out@),
{
    let pieces = cut_pieces(line, ranges);
    let mut fragments: Vec<String> = Vec::new();
    let mut k: usize = 0;
    while k < pieces.len()
        invariant
            k <= pieces.len(),
            fragments.len() == k,
            forall|j: int| 0 <= j < k ==> embedded(pieces@[j]@, #[trigger] fragments@[j]@),
        decreases pieces.len() - k,
    {
        fragments.push(emphasize(pieces[k], style));
        k += 1;
    }
    let out = splice(line, ranges, &fragments);
    proof {
        let shown = texts_of(fragments@);
        assert forall|j: int| 0 <= j < ranges@.len() implies holds_piece(
            encode_utf8(line@),
            ranges@[j],
            #[trigger] shown[j],
        ) by {
            assert(embedded(pieces@[j]@, fragments@[j]@));
        }
        assert(rendered_with(line@, ranges@, shown) == encode_utf8(out@));
    }
    out
}

} // verus!
