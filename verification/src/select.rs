//! Context selection: which lines accompany a matched line in the output.

use vstd::prelude::*;
use vstd::string::*;
use crate::indent::{indent_width, indentation};
use crate::text::texts_of;

verus! {

/// What is shown around a matched line. The three modes exclude each other.
#[derive(Clone, Copy, Debug, PartialEq, Eq, Structural)]
pub enum OutputMode {
    /// The matched line alone.
    Plain,
    /// Up to `before` lines in front of the matched line, and up to `after`
    /// lines behind it.
    Context { before: usize, after: usize },
    /// The block of lines around the matched line that are indented at least
    /// as far as it is, headed by the nearest line above that is indented
    /// less. Tabs count as `tab_width` columns.
    Section { tab_width: usize },
}

/// The consecutive indices `lo, lo + 1, .., hi - 1`.
pub open spec fn span(lo: int, hi: int) -> Seq<usize> {
    Seq::new((hi - lo) as nat, |k: int| (lo + k) as usize)
}

/// First index of the context window of a match: `before` lines up, but not
/// above the first line.
pub open spec fn window_start(matched: int, before: int) -> int {
    if matched >= before {
        matched - before
    } else {
        0
    }
}

/// End of the context window of a match, one behind its last index: `after`
/// lines down, but not below the last of the `total` lines.
pub open spec fn window_end(matched: int, total: int, after: int) -> int {
    if matched + after < total {
        matched + after + 1
    } else {
        total
    }
}

/// A match that lies at least `before` lines behind the first line and more
/// than `after` lines in front of the end has its full window: `before + 1 +
/// after` consecutive indices in ascending order around it.
pub proof fn lemma_full_window(matched: int, total: int, before: int, after: int)
    requires
        0 <= before <= matched,
        0 <= after,
        matched + after < total <= usize::MAX,
    ensures
        span(window_start(matched, before), window_end(matched, total, after)).len() == before + 1
            + after,
        forall|k: int|
            0 <= k < before + 1 + after ==> #[trigger] span(
                window_start(matched, before),
                window_end(matched, total, after),
            )[k] as int == matched - before + k,
{
}

/// Walks up from line `from`, not counting it: the index of the nearest line
/// above that is indented less than `base`, or 0 if every line above is
/// indented at least as far.
pub open spec fn section_start(widths: Seq<int>, base: int, from: int) -> int
    decreases from,
{
    if from <= 0 {
        0
    } else if widths[from - 1] < base {
        from - 1
    } else {
        section_start(widths, base, from - 1)
    }
}

/// Walks down from line `from`, counting it: the index of the first line
/// that is indented less than `base`, or the number of lines if there is none.
pub open spec fn section_end(widths: Seq<int>, base: int, from: int) -> int
    decreases widths.len() - from,
{
    if from >= widths.len() {
        widths.len() as int
    } else if widths[from] < base {
        from
    } else {
        section_end(widths, base, from + 1)
    }
}

/// First line of the section around the matched line.
pub open spec fn section_first(widths: Seq<int>, matched: int) -> int {
    section_start(widths, widths[matched], matched)
}

/// End of the section around the matched line, one behind its last line.
pub open spec fn section_limit(widths: Seq<int>, matched: int) -> int {
    section_end(widths, widths[matched], matched)
}

/// Where the walk up comes to rest: at or above where it set out, on a line
/// indented less than `base` unless it reached the top, with no such line
/// between the two.
pub proof fn lemma_section_start(widths: Seq<int>, base: int, from: int)
    requires
        0 <= from <= widths.len(),
    ensures
        0 <= section_start(widths, base, from) <= from,
        0 < section_start(widths, base, from) ==> widths[section_start(widths, base, from)] < base,
        forall|i: int| section_start(widths, base, from) < i < from ==> widths[i] >= base,
    decreases from,
{
    if from > 0 && widths[from - 1] >= base {
        lemma_section_start(widths, base, from - 1);
    }
}

/// Where the walk down comes to rest: on the first line at or below where
/// it set out that is indented less than `base`, or behind the last line.
pub proof fn lemma_section_end(widths: Seq<int>, base: int, from: int)
    requires
        0 <= from <= widths.len(),
    ensures
        from <= section_end(widths, base, from) <= widths.len(),
        section_end(widths, base, from) < widths.len() ==> widths[section_end(widths, base, from)]
            < base,
        forall|i: int| from <= i < section_end(widths, base, from) ==> widths[i] >= base,
    decreases widths.len() - from,
{
    if from < widths.len() && widths[from] >= base {
        lemma_section_end(widths, base, from + 1);
    }
}

/// The section of a matched line holds that line.
pub proof fn lemma_section_holds_match(widths: Seq<int>, matched: int)
    requires
        0 <= matched < widths.len(),
    ensures
        0 <= section_first(widths, matched) <= matched < section_limit(widths, matched)
            <= widths.len(),
{
    lemma_section_start(widths, widths[matched], matched);
    lemma_section_end(widths, widths[matched], matched + 1);
}

/// One line of the input as the selection sees it: where it stands, what it
/// holds, and how far it is indented. Records are derived from the lines
/// when a selection needs them and are not kept.
#[derive(Clone, Copy, Debug, PartialEq, Eq)]
pub struct LineRecord<'a> {
    /// The 0-based position of the line in the input.
    pub index: usize,
    /// The line as it stands.
    pub raw_text: &'a str,
    /// The indentation width of the line, in columns.
    pub indentation: u128,
}

/// The indentation width of every line.
pub open spec fn widths_of(lines: Seq<Seq<char>>, tab_width: int) -> Seq<int> {
    Seq::new(lines.len(), |i: int| indent_width(lines[i], tab_width as nat) as int)
}

/// The indentation width that every record holds.
pub open spec fn widths_in(records: Seq<LineRecord>) -> Seq<int> {
    records.map_values(|r: LineRecord| r.indentation as int)
}

/// The records are those of `lines`, in order, with tabs counted as
/// `tab_width` columns.
pub open spec fn records_of(records: Seq<LineRecord>, lines: Seq<Seq<char>>, tab_width: int) -> bool {
    &&& records.len() == lines.len()
    &&& forall|i: int|
        0 <= i < records.len() ==> {
            &&& (#[trigger] records[i]).index == i
            &&& records[i].raw_text@ == lines[i]
            &&& records[i].indentation == indent_width(lines[i], tab_width as nat)
        }
}

/// The lines selected for one matched line among `total` lines with the
/// given indentation widths, in ascending order.
pub open spec fn selection(mode: OutputMode, total: int, widths: Seq<int>, matched: int) -> Seq<
    usize,
> {
    match mode {
        OutputMode::Plain => span(matched, matched + 1),
        OutputMode::Context { before, after } => span(
            window_start(matched, before as int),
            window_end(matched, total, after as int),
        ),
        OutputMode::Section { .. } => span(
            section_first(widths, matched),
            section_limit(widths, matched),
        ),
    }
}

/// Lists the indices from `lo` up to, but not including, `hi`.
pub fn index_span(lo: usize, hi: usize) -> (indices: Vec<usize>)
    requires
        lo <= hi,
    ensures
        indices@ == span(lo as int, hi as int),
{
    let mut indices: Vec<usize> = Vec::new();
    let mut next: usize = lo;
    while next < hi
        invariant
            lo <= next <= hi,
            indices@ == span(lo as int, next as int),
        decreases hi - next,
    {
        indices.push(next);
        next += 1;
    }
    indices
}

/// The bounds of the context window of the match at `matched` among `total`
/// lines: its first index and the index behind its last.
pub fn window_bounds(matched: usize, total: usize, before: usize, after: usize) -> (bounds: (
    usize,
    usize,
))
    requires
        matched < total,
    ensures
        bounds.0 == window_start(matched as int, before as int),
        bounds.1 == window_end(matched as int, total as int, after as int),
        bounds.0 <= matched < bounds.1 <= total,
{
    let lo: usize = if matched >= before {
        matched - before
    } else {
        0
    };
    let hi: usize = if after < total - matched {
        matched + after + 1
    } else {
        total
    };
    (lo, hi)
}

/// The bounds of the section around the line at `matched`, by the
/// indentation that the records hold: its first index and the index behind
/// its last.
pub fn section_bounds(source: &Vec<LineRecord>, matched: usize) -> (bounds: (usize, usize))
    requires
        matched < source.len(),
    ensures
        bounds.0 == section_first(widths_in(source@), matched as int),
        bounds.1 == section_limit(widths_in(source@), matched as int),
        bounds.0 <= matched < bounds.1 <= source.len(),
{
    let ghost model = widths_in(source@);
    let base: u128 = source[matched].indentation;
    let total: usize = source.len();
    let mut start: usize = matched;
    loop
        invariant_except_break
            start <= matched < source.len(),
            model == widths_in(source@),
            base == model[matched as int],
            section_first(model, matched as int) == section_start(model, base as int, start as int),
        ensures
            start <= matched,
            start == section_first(model, matched as int),
        decreases start,
    {
        if start == 0 {
            break;
        }
        start -= 1;
        if source[start].indentation < base {
            break;
        }
    }
    let mut end: usize = matched;
    while end < total && source[end].indentation >= base
        invariant
            matched <= end <= total == source.len(),
            model == widths_in(source@),
            base == model[matched as int],
            section_limit(model, matched as int) == section_end(model, base as int, end as int),
        decreases total - end,
    {
        end += 1;
    }
    proof {
        lemma_section_holds_match(model, matched as int);
    }
    (start, end)
}

/// Derives the record of every line, with tabs counted as `tab_width`
/// columns.
pub fn derive_records<'a>(lines: &'a Vec<String>, tab_width: usize) -> (records: Vec<
    LineRecord<'a>,
>)
    ensures
        records_of(records@, texts_of(lines@), tab_width as int),
        widths_in(records@) == widths_of(texts_of(lines@), tab_width as int),
{
    let mut records: Vec<LineRecord<'a>> = Vec::new();
    let mut i: usize = 0;
    while i < lines.len()
        invariant
            i <= lines.len(),
            records.len() == i,
            forall|k: int|
                0 <= k < i ==> {
                    &&& (#[trigger] records[k]).index == k
                    &&& records[k].raw_text@ == lines[k]@
                    &&& records[k].indentation == indent_width(lines[k]@, tab_width as nat)
                },
        decreases lines.len() - i,
    {
        let raw_text = lines[i].as_str();
        let indentation = indentation(raw_text, tab_width);
        records.push(LineRecord { index: i, raw_text, indentation });
        i += 1;
    }
    records
}

/// Selects the lines to show for the matched line at `matched_index` among
/// `total_lines` lines, in ascending order: the line itself, its context
/// window, or its section. Only the section mode reads `source`, which
/// must then hold the record of every line.
pub fn select(
    matched_index: usize,
    total_lines: usize,
    mode: &OutputMode,
    source: &Vec<LineRecord>,
) -> (picked: Vec<usize>)
    requires
        matched_index < total_lines,
        *mode is Section ==> source.len() == total_lines,
    ensures
        picked@ == selection(
            *mode,
            total_lines as int,
            widths_in(source@),
            matched_index as int,
        ),
{
    match mode {
        OutputMode::Plain => index_span(matched_index, matched_index + 1),
        OutputMode::Context { before, after } => {
            let bounds = window_bounds(matched_index, total_lines, *before, *after);
            index_span(bounds.0, bounds.1)
        },
        OutputMode::Section { .. } => {
            let bounds = section_bounds(source, matched_index);
            index_span(bounds.0, bounds.1)
        },
    }
}

} // verus!
