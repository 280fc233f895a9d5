//! Byte ranges of matches inside one line.

use vstd::prelude::*;
use vstd::utf8::*;

verus! {

/// A half-open byte range `start..end` of one match inside a line.
#[derive(Clone, Copy, Debug, PartialEq, Eq, Structural)]
pub struct MatchRange {
    pub start: usize,
    pub end: usize,
}

/// Every range lies inside a text of `len` bytes with `start <= end`, and
/// the ranges follow each other from left to right without overlapping.
pub open spec fn ordered_within(ranges: Seq<MatchRange>, len: int) -> bool {
    &&& forall|k: int|
        0 <= k < ranges.len() ==> (#[trigger] ranges[k]).start <= ranges[k].end <= len
    &&& forall|j: int, k: int|
        0 <= j < k < ranges.len() ==> (#[trigger] ranges[j]).end <= (#[trigger] ranges[k]).start
}

/// Both ends of every range fall between two characters of the UTF-8 text
/// `bytes`, never inside the encoding of one.
pub open spec fn on_char_boundaries(bytes: Seq<u8>, ranges: Seq<MatchRange>) -> bool {
    forall|k: int|
        0 <= k < ranges.len() ==> {
            &&& is_char_boundary(bytes, (#[trigger] ranges[k]).start as int)
            &&& is_char_boundary(bytes, ranges[k].end as int)
        }
}

/// The ranges can be cut out of the UTF-8 text `bytes` one after the other.
pub open spec fn fits(bytes: Seq<u8>, ranges: Seq<MatchRange>) -> bool {
    ordered_within(ranges, bytes.len() as int) && on_char_boundaries(bytes, ranges)
}

} // verus!
