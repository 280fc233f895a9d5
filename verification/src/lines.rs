//! Splitting a text into its lines.

use vstd::prelude::*;
use vstd::string::*;
use vstd::utf8::*;
use crate::text::{encoded, slice_between, texts_of};
use crate::utf8_facts::{
    lemma_ascii_byte_in_char, lemma_boundary_behind_ascii, lemma_encode_concat,
    lemma_encode_injective, lemma_encode_single, lemma_encode_subrange, offset_of,
};

verus! {

/// A line without the carriage return that stood in front of its line feed.
pub open spec fn without_return(line: Seq<char>) -> Seq<char> {
    if line.len() > 0 && line.last() == '\r' {
        line.drop_last()
    } else {
        line
    }
}

/// The lines of `text` that are still to come when the line that began at
/// the character with index `start` has been read up to the character
/// with index `at`. A line ends with a line feed, which is no part of it,
/// nor is a carriage return right in front of the line feed. The last line
/// needs no line feed, and keeps a carriage return at its end.
pub open spec fn lines_scan(text: Seq<char>, start: int, at: int) -> Seq<Seq<char>>
    decreases text.len() - at,
{
    if at >= text.len() {
        if start < text.len() {
            seq![text.subrange(start, text.len() as int)]
        } else {
            Seq::empty()
        }
    } else if text[at] == '\n' {
        seq![without_return(text.subrange(start, at))] + lines_scan(text, at + 1, at + 1)
    } else {
        lines_scan(text, start, at + 1)
    }
}

/// The lines of a text, in order.
pub open spec fn lines_of(text: Seq<char>) -> Seq<Seq<char>> {
    lines_scan(text, 0, 0)
}

/// What [`without_return`] is to characters, for bytes.
spec fn without_return_byte(line: Seq<u8>) -> Seq<u8> {
    if line.len() > 0 && line.last() == 0x0d {
        line.drop_last()
    } else {
        line
    }
}

/// What [`lines_scan`] is to characters, for the bytes of an encoding.
spec fn byte_lines_scan(bytes: Seq<u8>, start: int, at: int) -> Seq<Seq<u8>>
    decreases bytes.len() - at,
{
    if at >= bytes.len() {
        if start < bytes.len() {
            seq![bytes.subrange(start, bytes.len() as int)]
        } else {
            Seq::empty()
        }
    } else if bytes[at] == 0x0a {
        seq![without_return_byte(bytes.subrange(start, at))] + byte_lines_scan(
            bytes,
            at + 1,
            at + 1,
        )
    } else {
        byte_lines_scan(bytes, start, at + 1)
    }
}

/// The scan passes over bytes that are no line feed.
proof fn lemma_scan_skips(bytes: Seq<u8>, start: int, at: int, width: int)
    requires
        0 <= at,
        0 <= width,
        at + width <= bytes.len(),
        forall|k: int| at <= k < at + width ==> bytes[k] != 0x0a,
    ensures
        byte_lines_scan(bytes, start, at) == byte_lines_scan(bytes, start, at + width),
    decreases width,
{
    if width > 0 {
        lemma_scan_skips(bytes, start, at + 1, width - 1);
    }
}

/// Dropping the carriage return at the end of a text drops the byte of it at
/// the end of the encoding.
proof fn lemma_without_return(line: Seq<char>)
    ensures
        encode_utf8(without_return(line)) == without_return_byte(encode_utf8(line)),
{
    if line.len() > 0 {
        let front = line.drop_last();
        let last = seq![line.last()];
        assert(front + last =~= line);
        lemma_encode_concat(front, last);
        lemma_encode_single(line.last());
        lemma_ascii_byte_in_char(line.last(), '\r');
        let tail = encode_scalar(line.last() as u32);
        assert(encode_utf8(line).last() == tail[tail.len() - 1]);
        if line.last() == '\r' {
            assert(encode_utf8(line).drop_last() =~= encode_utf8(front));
        }
    }
}

/// Scanning the encoding of a text byte by byte finds the encodings of the
/// lines that scanning the text character by character finds.
proof fn lemma_byte_lines(text: Seq<char>, start: int, at: int)
    requires
        0 <= start <= at <= text.len(),
    ensures
        byte_lines_scan(encode_utf8(text), offset_of(text, start), offset_of(text, at)) == encoded(
            lines_scan(text, start, at),
        ),
    decreases text.len() - at,
{
    let bytes = encode_utf8(text);
    let from = offset_of(text, start);
    let to = offset_of(text, at);
    lemma_encode_subrange(text, start, at);
    lemma_encode_subrange(text, at, text.len() as int);
    lemma_encode_subrange(text, start, text.len() as int);
    if at >= text.len() {
        assert(byte_lines_scan(bytes, from, to) =~= encoded(lines_scan(text, start, at)));
    } else {
        let ch = text[at];
        let next = offset_of(text, at + 1);
        lemma_encode_subrange(text, at, at + 1);
        lemma_encode_subrange(text, at + 1, at + 1);
        let one = text.subrange(at, at + 1);
        assert(one =~= seq![ch]);
        lemma_encode_single(ch);
        lemma_ascii_byte_in_char(ch, '\n');
        let unit = encode_scalar(ch as u32);
        assert forall|k: int| to <= k < next implies (bytes[k] == 0x0a <==> ch == '\n') by {
            assert(bytes[k] == bytes.subrange(to, next)[k - to]);
            assert(unit[k - to] == 0x0a <==> ch == '\n');
        }
        lemma_byte_lines(text, at + 1, at + 1);
        lemma_byte_lines(text, start, at + 1);
        if ch == '\n' {
            assert(next == to + 1);
            lemma_without_return(text.subrange(start, at));
            assert(byte_lines_scan(bytes, from, to) =~= encoded(lines_scan(text, start, at)));
        } else {
            lemma_scan_skips(bytes, from, to, next - to);
        }
    }
}

/// Splits `content` into its lines, in order.
pub fn split_lines(content: &str) -> (lines: Vec<String>)
    ensures
        texts_of(lines@) == lines_of(content@),
{
    let bytes = content.as_bytes();
    let total: usize = bytes.len();
    let ghost text = encode_utf8(content@);
    let mut lines: Vec<String> = Vec::new();
    let mut start: usize = 0;
    let mut at: usize = 0;
    proof {
        encode_utf8_valid_utf8(content@);
        is_char_boundary_start_end_of_seq(text);
    }
    while at < total
        invariant
            start <= at <= total == text.len(),
            text == encode_utf8(content@),
            bytes@ == text,
            valid_utf8(text),
            is_char_boundary(text, start as int),
            encoded(texts_of(lines@)) + byte_lines_scan(text, start as int, at as int)
                == byte_lines_scan(text, 0, 0),
        decreases total - at,
    {
        if bytes[at] == 0x0a {
            let mut end: usize = at;
            if start < at && bytes[at - 1] == 0x0d {
                end = at - 1;
            }
            proof {
                lemma_boundary_behind_ascii(text, at as int);
                if end < at {
                    lemma_boundary_behind_ascii(text, end as int);
                }
                assert(text.subrange(start as int, end as int) =~= without_return_byte(
                    text.subrange(start as int, at as int),
                ));
            }
            let piece = slice_between(content, start, end);
            let ghost earlier = lines@;
            lines.push(piece.to_owned());
            proof {
                assert(encoded(texts_of(lines@)) =~= encoded(texts_of(earlier)).push(
                    encode_utf8(piece@),
                ));
                assert(encoded(texts_of(lines@)) + byte_lines_scan(text, at + 1, at + 1)
                    =~= encoded(texts_of(earlier)) + byte_lines_scan(
                    text,
                    start as int,
                    at as int,
                ));
            }
            start = at + 1;
        }
        at += 1;
    }
    if start < total {
        let piece = slice_between(content, start, total);
        let ghost earlier = lines@;
        lines.push(piece.to_owned());
        proof {
            assert(encoded(texts_of(lines@)) =~= encoded(texts_of(earlier)).push(
                encode_utf8(piece@),
            ));
        }
    }
    proof {
        let found = texts_of(lines@);
        let wanted = lines_of(content@);
        assert(content@.subrange(0, 0) =~= Seq::<char>::empty());
        lemma_byte_lines(content@, 0, 0);
        assert(encoded(found) =~= encoded(wanted));
        assert(found =~= wanted) by {
            assert(found.len() == encoded(found).len());
            assert(wanted.len() == encoded(wanted).len());
            assert forall|k: int| 0 <= k < found.len() implies found[k] == wanted[k] by {
                assert(encoded(found)[k] == encode_utf8(found[k]));
                assert(encoded(wanted)[k] == encode_utf8(wanted[k]));
                lemma_encode_injective(found[k], wanted[k]);
            }
        }
    }
    lines
}

} // verus!
