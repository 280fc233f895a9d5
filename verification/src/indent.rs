//! Indentation analysis: the column width of a line's leading whitespace.

use vstd::prelude::*;
use vstd::string::*;
use vstd::utf8::*;
use crate::utf8_facts::lemma_ascii_byte_in_char;

verus! {

/// Number of characters at the front of `line` that are all equal to `c`.
pub open spec fn leading_run(line: Seq<char>, c: char) -> nat
    decreases line.len(),
{
    if line.len() > 0 && line[0] == c {
        1 + leading_run(line.drop_first(), c)
    } else {
        0
    }
}

/// Indentation width of a line: its leading spaces count one column each,
/// its leading tabs `tab_width` columns each. The two runs are both
/// measured from the start of the line, so a line that mixes the two is
/// credited only with the run it begins with.
pub open spec fn indent_width(line: Seq<char>, tab_width: nat) -> nat {
    leading_run(line, ' ') + leading_run(line, '\t') * tab_width
}

/// Number of bytes at the front of `bytes` that are all equal to `b`.
pub open spec fn leading_bytes(bytes: Seq<u8>, b: u8) -> nat
    decreases bytes.len(),
{
    if bytes.len() > 0 && bytes[0] == b {
        1 + leading_bytes(bytes.drop_first(), b)
    } else {
        0
    }
}

/// A prefix of `n` bytes equal to `b` that cannot be extended is the
/// leading run of `b`.
pub proof fn lemma_leading_bytes_unique(bytes: Seq<u8>, b: u8, n: int)
    requires
        0 <= n <= bytes.len(),
        forall|j: int| 0 <= j < n ==> bytes[j] == b,
        n == bytes.len() || bytes[n] != b,
    ensures
        leading_bytes(bytes, b) == n,
    decreases n,
{
    if n > 0 {
        lemma_leading_bytes_unique(bytes.drop_first(), b, n - 1);
    }
}

/// A text begins with as many copies of an ASCII character as its encoding
/// begins with copies of the byte of that character.
pub proof fn lemma_leading_run_of_encoding(line: Seq<char>, c: char)
    requires
        c as u32 <= 0x7f,
    ensures
        leading_bytes(encode_utf8(line), c as u8) == leading_run(line, c),
    decreases line.len(),
{
    if line.len() > 0 {
        lemma_ascii_byte_in_char(line[0], c);
        if line[0] == c {
            assert(encode_utf8(line).drop_first() =~= encode_utf8(line.drop_first()));
            lemma_leading_run_of_encoding(line.drop_first(), c);
        }
    }
}

/// Counts the bytes at the front of `bytes` that are equal to `b`.
fn count_leading(bytes: &[u8], b: u8) -> (n: usize)
    ensures
        n == leading_bytes(bytes@, b),
{
    let mut i: usize = 0;
    while i < bytes.len() && bytes[i] == b
        invariant
            i <= bytes@.len(),
            forall|j: int| 0 <= j < i ==> bytes@[j] == b,
        decreases bytes@.len() - i,
    {
        i += 1;
    }
    proof {
        lemma_leading_bytes_unique(bytes@, b, i as int);
    }
    i
}

/// Computes the indentation width of `line` with tabs expanded to
/// `tab_width` columns. The result is wide enough for any line and any tab
/// width, so the function is total.
pub fn indentation(line: &str, tab_width: usize) -> (width: u128)
    ensures
        width == indent_width(line@, tab_width as nat),
{
    let bytes = line.as_bytes();
    let spaces = count_leading(bytes, 0x20);
    let tabs = count_leading(bytes, 0x09);
    proof {
        lemma_leading_run_of_encoding(line@, ' ');
        lemma_leading_run_of_encoding(line@, '\t');
        assert(tabs * tab_width <= 0xffff_ffff_ffff_ffff * 0xffff_ffff_ffff_ffff) by (nonlinear_arith)
            requires
                0 <= tabs <= 0xffff_ffff_ffff_ffff,
                0 <= tab_width <= 0xffff_ffff_ffff_ffff,
        ;
    }
    (spaces as u128) + (tabs as u128) * (tab_width as u128)
}

} // verus!
