//! Literal matching: plain substring search over the UTF-8 bytes of a line.

use vstd::prelude::*;
use vstd::string::*;
use vstd::utf8::*;
use crate::range::{fits, ordered_within, MatchRange};
use crate::utf8_facts::{
    lemma_boundary_behind_boundary, lemma_boundary_is_offset, lemma_encode_injective,
    lemma_encode_nonempty, lemma_encode_subrange, lemma_prefix_ends_on_boundary, offset_of,
};

verus! {

/// The characters of `needle` stand in `hay` from the character with index
/// `at` on.
pub open spec fn stands_in(hay: Seq<char>, needle: Seq<char>, at: int) -> bool {
    &&& 0 <= at
    &&& at + needle.len() <= hay.len()
    &&& hay.subrange(at, at + needle.len()) == needle
}

/// `needle` is a substring of `hay`.
pub open spec fn contains_text(hay: Seq<char>, needle: Seq<char>) -> bool {
    exists|at: int| stands_in(hay, needle, at)
}

/// The bytes of `pat` stand in `hay` at offset `at`.
pub open spec fn occurs_at(hay: Seq<u8>, pat: Seq<u8>, at: int) -> bool {
    &&& 0 <= at
    &&& at + pat.len() <= hay.len()
    &&& hay.subrange(at, at + pat.len()) == pat
}

/// The bytes of `pat` stand somewhere in `hay`.
pub open spec fn contains(hay: Seq<u8>, pat: Seq<u8>) -> bool {
    exists|at: int| occurs_at(hay, pat, at)
}

/// A match may be reported at `at`: the pattern stands there, and `at` does
/// not fall inside a character. Only the empty pattern can stand inside one.
pub open spec fn match_at(hay: Seq<u8>, pat: Seq<u8>, at: int) -> bool {
    occurs_at(hay, pat, at) && is_char_boundary(hay, at)
}

/// How far the scan moves on after a match: past the match, and by at least
/// one byte so that the empty pattern cannot hold it in place.
pub open spec fn stride(pat_len: nat) -> int {
    if pat_len == 0 {
        1
    } else {
        pat_len as int
    }
}

/// The matches found by scanning `hay` from offset `from` to the right,
/// resuming right behind each match.
pub open spec fn scan_from(hay: Seq<u8>, pat: Seq<u8>, from: int) -> Seq<MatchRange>
    decreases hay.len() + 1 - from,
{
    if from < 0 || from + pat.len() > hay.len() {
        Seq::empty()
    } else if match_at(hay, pat, from) {
        seq![MatchRange { start: from as usize, end: (from + pat.len()) as usize }] + scan_from(
            hay,
            pat,
            from + stride(pat.len()),
        )
    } else {
        scan_from(hay, pat, from + 1)
    }
}

/// All non-overlapping occurrences of `pat` in `hay`, from left to right.
pub open spec fn literal_ranges(hay: Seq<u8>, pat: Seq<u8>) -> Seq<MatchRange> {
    scan_from(hay, pat, 0)
}

/// What holds of a scan that set out at `from`: each range found lies at or
/// behind `from`, has the length of the pattern and holds a match, and each
/// begins at least a stride behind the one before it.
pub open spec fn sound_from(hay: Seq<u8>, pat: Seq<u8>, from: int, found: Seq<MatchRange>) -> bool {
    &&& forall|k: int|
        0 <= k < found.len() ==> {
            &&& from <= (#[trigger] found[k]).start
            &&& found[k].end == found[k].start + pat.len()
            &&& match_at(hay, pat, found[k].start as int)
        }
    &&& forall|j: int, k: int|
        0 <= j < k < found.len() ==> (#[trigger] found[j]).start + stride(pat.len()) <= (
        #[trigger] found[k]).start
}

/// Every place at or behind `from` where a match may be reported is taken by
/// a range that was found: the range begins there, or covers it.
pub open spec fn complete_from(hay: Seq<u8>, pat: Seq<u8>, from: int, found: Seq<MatchRange>) -> bool {
    forall|at: int|
        from <= at && #[trigger] match_at(hay, pat, at) ==> exists|k: int|
            0 <= k < found.len() && (#[trigger] found[k]).start <= at < found[k].start + stride(
                pat.len(),
            )
}

/// Every range that a scan reports holds a match, and the ranges follow
/// each other at a stride or more.
pub proof fn lemma_scan_from_sound(hay: Seq<u8>, pat: Seq<u8>, from: int)
    requires
        0 <= from,
        hay.len() <= usize::MAX,
    ensures
        sound_from(hay, pat, from, scan_from(hay, pat, from)),
    decreases hay.len() + 1 - from,
{
    let found = scan_from(hay, pat, from);
    if from + pat.len() > hay.len() {
    } else if match_at(hay, pat, from) {
        let next = from + stride(pat.len());
        let rest = scan_from(hay, pat, next);
        lemma_scan_from_sound(hay, pat, next);
        assert forall|k: int| 0 <= k < found.len() implies {
            &&& from <= (#[trigger] found[k]).start
            &&& found[k].end == found[k].start + pat.len()
            &&& match_at(hay, pat, found[k].start as int)
        } by {
            if k > 0 {
                assert(found[k] == rest[k - 1]);
            }
        }
        assert forall|j: int, k: int| 0 <= j < k < found.len() implies (#[trigger] found[j]).start
            + stride(pat.len()) <= (#[trigger] found[k]).start by {
            assert(found[k] == rest[k - 1]);
            if j > 0 {
                assert(found[j] == rest[j - 1]);
            }
        }
    } else {
        lemma_scan_from_sound(hay, pat, from + 1);
    }
}

/// A scan passes over no place where a match may be reported.
pub proof fn lemma_scan_from_complete(hay: Seq<u8>, pat: Seq<u8>, from: int)
    requires
        0 <= from,
        hay.len() <= usize::MAX,
    ensures
        complete_from(hay, pat, from, scan_from(hay, pat, from)),
    decreases hay.len() + 1 - from,
{
    let found = scan_from(hay, pat, from);
    if from + pat.len() > hay.len() {
    } else if match_at(hay, pat, from) {
        let next = from + stride(pat.len());
        let rest = scan_from(hay, pat, next);
        lemma_scan_from_complete(hay, pat, next);
        assert forall|at: int| from <= at && #[trigger] match_at(hay, pat, at) implies exists|
            k: int,
        |
            0 <= k < found.len() && (#[trigger] found[k]).start <= at < found[k].start + stride(
                pat.len(),
            ) by {
            if at < next {
                assert(found[0].start == from);
            } else {
                let k = choose|k: int|
                    0 <= k < rest.len() && (#[trigger] rest[k]).start <= at < rest[k].start
                        + stride(pat.len());
                assert(found[k + 1] == rest[k]);
            }
        }
    } else {
        lemma_scan_from_complete(hay, pat, from + 1);
    }
}

/// The ranges that the scan of a whole line reports do not overlap, are
/// sorted by strictly ascending start, and each spells the pattern exactly.
pub proof fn lemma_literal_ranges_exact(hay: Seq<u8>, pat: Seq<u8>)
    requires
        hay.len() <= usize::MAX,
    ensures
        ordered_within(literal_ranges(hay, pat), hay.len() as int),
        forall|j: int, k: int|
            0 <= j < k < literal_ranges(hay, pat).len() ==> (#[trigger] literal_ranges(
                hay,
                pat,
            )[j]).start < (#[trigger] literal_ranges(hay, pat)[k]).start,
        forall|k: int|
            0 <= k < literal_ranges(hay, pat).len() ==> hay.subrange(
                (#[trigger] literal_ranges(hay, pat)[k]).start as int,
                literal_ranges(hay, pat)[k].end as int,
            ) == pat,
{
    lemma_scan_from_sound(hay, pat, 0);
}

/// The scan passes over no occurrence: wherever the pattern stands on a
/// character boundary, a reported range begins there or covers the place.
pub proof fn lemma_literal_ranges_complete(hay: Seq<u8>, pat: Seq<u8>)
    requires
        hay.len() <= usize::MAX,
    ensures
        complete_from(hay, pat, 0, literal_ranges(hay, pat)),
{
    lemma_scan_from_complete(hay, pat, 0);
}

/// In UTF-8 text, wherever a pattern that is itself UTF-8 text stands on a
/// character boundary, it also ends on one.
pub proof fn lemma_match_ends_on_boundary(hay: Seq<u8>, pat: Seq<u8>, at: int)
    requires
        valid_utf8(hay),
        valid_utf8(pat),
        match_at(hay, pat, at),
    ensures
        is_char_boundary(hay, at + pat.len()),
{
    let tail = hay.subrange(at, hay.len() as int);
    valid_utf8_split(hay, at);
    assert(tail.subrange(0, pat.len() as int) =~= hay.subrange(at, at + pat.len()));
    lemma_prefix_ends_on_boundary(pat, tail);
    lemma_boundary_behind_boundary(hay, at, pat.len() as int);
}

/// In UTF-8 text, a pattern that is itself UTF-8 text and not empty can
/// only stand on a character boundary.
pub proof fn lemma_occurrence_starts_on_boundary(hay: Seq<u8>, pat: Seq<u8>, at: int)
    requires
        valid_utf8(hay),
        valid_utf8(pat),
        pat.len() > 0,
        occurs_at(hay, pat, at),
    ensures
        is_char_boundary(hay, at),
{
    assert(hay.subrange(at, at + pat.len())[0] == hay[at]);
    assert(!is_continuation_byte(pat[0]));
    is_char_boundary_iff_not_is_continuation_byte(hay, at);
}

/// The ranges located in UTF-8 text for a UTF-8 pattern can be cut out of
/// the text: they are in order, inside it, and on character boundaries.
pub proof fn lemma_literal_ranges_fit(hay: Seq<u8>, pat: Seq<u8>)
    requires
        hay.len() <= usize::MAX,
        valid_utf8(hay),
        valid_utf8(pat),
    ensures
        fits(hay, literal_ranges(hay, pat)),
{
    lemma_scan_from_sound(hay, pat, 0);
    let found = literal_ranges(hay, pat);
    assert forall|k: int| 0 <= k < found.len() implies {
        &&& is_char_boundary(hay, (#[trigger] found[k]).start as int)
        &&& is_char_boundary(hay, found[k].end as int)
    } by {
        lemma_match_ends_on_boundary(hay, pat, found[k].start as int);
    }
}

/// Where the encoding of a pattern stands on a character boundary of the
/// encoding of a line, the pattern stands in the line, from the character
/// on that begins at that offset.
pub proof fn lemma_match_is_occurrence(hay: Seq<char>, needle: Seq<char>, at: int) -> (i: int)
    requires
        match_at(encode_utf8(hay), encode_utf8(needle), at),
    ensures
        stands_in(hay, needle, i),
        offset_of(hay, i) == at,
        offset_of(hay, i + needle.len()) == at + encode_utf8(needle).len(),
{
    let bytes = encode_utf8(hay);
    let pat = encode_utf8(needle);
    encode_utf8_valid_utf8(hay);
    encode_utf8_valid_utf8(needle);
    lemma_match_ends_on_boundary(bytes, pat, at);
    let i = lemma_boundary_is_offset(hay, at);
    let j = lemma_boundary_is_offset(hay, at + pat.len());
    if j < i {
        lemma_encode_subrange(hay, j, i);
    }
    lemma_encode_subrange(hay, i, j);
    lemma_encode_injective(hay.subrange(i, j), needle);
    i
}

/// A text is a substring of another exactly if its encoding stands
/// somewhere in the encoding of the other.
pub proof fn lemma_contains_text_iff_bytes(hay: Seq<char>, needle: Seq<char>)
    ensures
        contains_text(hay, needle) <==> contains(encode_utf8(hay), encode_utf8(needle)),
{
    let bytes = encode_utf8(hay);
    let pat = encode_utf8(needle);
    encode_utf8_valid_utf8(hay);
    encode_utf8_valid_utf8(needle);
    if contains_text(hay, needle) {
        let at = choose|at: int| stands_in(hay, needle, at);
        lemma_encode_subrange(hay, at, at + needle.len());
        assert(occurs_at(bytes, pat, offset_of(hay, at)));
    }
    if contains(bytes, pat) {
        let at = choose|at: int| occurs_at(bytes, pat, at);
        if needle.len() == 0 {
            assert(hay.subrange(0, 0) =~= needle);
            assert(stands_in(hay, needle, 0));
        } else {
            lemma_encode_nonempty(needle);
            lemma_occurrence_starts_on_boundary(bytes, pat, at);
            lemma_match_is_occurrence(hay, needle, at);
        }
    }
}

/// The range covers an occurrence of the pattern in the line: it begins
/// where some character of the line begins, from which on the pattern
/// stands in the line, and ends where the pattern ends.
pub open spec fn covers_occurrence(hay: Seq<char>, needle: Seq<char>, range: MatchRange) -> bool {
    exists|at: int|
        {
            &&& #[trigger] stands_in(hay, needle, at)
            &&& range.start == offset_of(hay, at)
            &&& range.end == offset_of(hay, at + needle.len())
        }
}

/// Every range located in a line covers an occurrence of the pattern.
pub proof fn lemma_literal_ranges_are_occurrences(hay: Seq<char>, needle: Seq<char>)
    requires
        encode_utf8(hay).len() <= usize::MAX,
    ensures
        forall|k: int|
            0 <= k < literal_ranges(encode_utf8(hay), encode_utf8(needle)).len()
                ==> covers_occurrence(
                hay,
                needle,
                #[trigger] literal_ranges(encode_utf8(hay), encode_utf8(needle))[k],
            ),
{
    let bytes = encode_utf8(hay);
    let pat = encode_utf8(needle);
    let found = literal_ranges(bytes, pat);
    lemma_scan_from_sound(bytes, pat, 0);
    assert forall|k: int| 0 <= k < found.len() implies covers_occurrence(
        hay,
        needle,
        #[trigger] found[k],
    ) by {
        let at = lemma_match_is_occurrence(hay, needle, found[k].start as int);
        assert(stands_in(hay, needle, at));
    }
}

/// A line contains the pattern exactly if locating it reports a range.
pub proof fn lemma_contains_iff_located(hay: Seq<u8>, pat: Seq<u8>)
    requires
        hay.len() <= usize::MAX,
        valid_utf8(hay),
        valid_utf8(pat),
    ensures
        contains(hay, pat) <==> literal_ranges(hay, pat).len() > 0,
{
    let found = literal_ranges(hay, pat);
    lemma_scan_from_sound(hay, pat, 0);
    lemma_scan_from_complete(hay, pat, 0);
    if contains(hay, pat) {
        let at = choose|at: int| occurs_at(hay, pat, at);
        if pat.len() == 0 {
            is_char_boundary_start_end_of_seq(hay);
            assert(hay.subrange(0, 0) =~= pat);
            assert(match_at(hay, pat, 0));
        } else {
            lemma_occurrence_starts_on_boundary(hay, pat, at);
            assert(match_at(hay, pat, at));
        }
    }
    if found.len() > 0 {
        assert(occurs_at(hay, pat, found[0].start as int));
    }
}

/// Tells whether the bytes of `pat` stand in `hay` at offset `at`.
fn stands_at(hay: &[u8], pat: &[u8], at: usize) -> (yes: bool)
    requires
        at + pat@.len() <= hay@.len(),
    ensures
        yes == occurs_at(hay@, pat@, at as int),
{
    let hay_len: usize = hay.len();
    let mut j: usize = 0;
    while j < pat.len()
        invariant
            j <= pat@.len(),
            at + pat@.len() <= hay@.len() == hay_len,
            forall|t: int| 0 <= t < j ==> hay@[at + t] == pat@[t],
        decreases pat@.len() - j,
    {
        if hay[at + j] != pat[j] {
            proof {
                let window = hay@.subrange(at as int, at + pat@.len());
                assert(window[j as int] == hay@[at + j]);
            }
            return false;
        }
        j += 1;
    }
    proof {
        assert(hay@.subrange(at as int, at + pat@.len()) =~= pat@);
    }
    true
}

/// Tells whether `pattern` is a substring of `line`.
pub fn literal_contains(line: &str, pattern: &str) -> (found: bool)
    ensures
        found == contains_text(line@, pattern@),
{
    let hay = line.as_bytes();
    let pat = pattern.as_bytes();
    proof {
        lemma_contains_text_iff_bytes(line@, pattern@);
    }
    if pat.len() > hay.len() {
        return false;
    }
    let last: usize = hay.len() - pat.len();
    let mut at: usize = 0;
    loop
        invariant
            contains_text(line@, pattern@) <==> contains(hay@, pat@),
            last == hay@.len() - pat@.len(),
            at <= last,
            forall|t: int| 0 <= t < at ==> !occurs_at(hay@, pat@, t),
        ensures
            forall|t: int| 0 <= t <= last ==> !occurs_at(hay@, pat@, t),
        decreases last - at,
    {
        if stands_at(hay, pat, at) {
            return true;
        }
        if at == last {
            break;
        }
        at += 1;
    }
    false
}

/// Locates every non-overlapping occurrence of `pattern` in `line`, scanning
/// from the left and resuming right behind each occurrence. The ranges are
/// in order and can be cut out of the line.
pub fn literal_locate(line: &str, pattern: &str) -> (ranges: Vec<MatchRange>)
    ensures
        ranges@ == literal_ranges(encode_utf8(line@), encode_utf8(pattern@)),
        fits(encode_utf8(line@), ranges@),
{
    let hay = line.as_bytes();
    let pat = pattern.as_bytes();
    let mut ranges: Vec<MatchRange> = Vec::new();
    let hay_len: usize = hay.len();
    proof {
        encode_utf8_valid_utf8(line@);
        encode_utf8_valid_utf8(pattern@);
        lemma_literal_ranges_fit(hay@, pat@);
    }
    if pat.len() > hay_len {
        return ranges;
    }
    let last: usize = hay_len - pat.len();
    let mut at: usize = 0;
    let mut done = false;
    while !done
        invariant
            hay@ == encode_utf8(line@),
            pat@ == encode_utf8(pattern@),
            last == hay@.len() - pat@.len(),
            hay@.len() <= usize::MAX,
            at <= last,
            done ==> ranges@ == literal_ranges(hay@, pat@),
            !done ==> ranges@ + scan_from(hay@, pat@, at as int) == literal_ranges(hay@, pat@),
        decreases last - at + (if done { 0int } else { 1int }),
    {
        let ghost found_so_far = ranges@;
        let mut advance: usize = 1;
        if line.is_char_boundary(at) && stands_at(hay, pat, at) {
            ranges.push(MatchRange { start: at, end: at + pat.len() });
            if pat.len() > 0 {
                advance = pat.len();
            }
        }
        proof {
            assert(ranges@ + scan_from(hay@, pat@, at + advance) =~= found_so_far + scan_from(
                hay@,
                pat@,
                at as int,
            ));
        }
        if advance > last - at {
            done = true;
        } else {
            at += advance;
        }
    }
    ranges
}

} // verus!
