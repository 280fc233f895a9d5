//! The search driver: scans every line once, renders the lines that match,
//! and puts together the output of the mode that was asked for.

use vstd::prelude::*;
use vstd::string::*;
use vstd::utf8::*;
use crate::accumulator::{lemma_slated_below, slated_below, SectionAccumulator};
use crate::casefold::fold;
use crate::label::{label, labelled};
use crate::pattern::{PatternSpec, PatternView};
use crate::record::{indices_of, OutputRecord};
use crate::render::{is_rendering, render};
use crate::select::{
    derive_records, lemma_section_holds_match, section_bounds, section_first, section_limit,
    widths_in, widths_of, window_bounds, window_end, window_start, OutputMode,
};
use crate::style::StyleSpec;
use crate::text::{layouts_agree, lemma_fits_same_layout, same_layout, texts_of};

verus! {

/// What a search shows and how: the output mode, whether lines carry their
/// number, and the emphasis given to matches.
#[derive(Clone, Copy, Debug, PartialEq, Eq, Structural)]
pub struct SearchConfig {
    pub mode: OutputMode,
    pub line_numbers: bool,
    pub style: StyleSpec,
}

/// One line of the output as the selection decides it: which input line is
/// shown, and whether it is shown as a match, with its matches emphasized.
pub struct Pick {
    pub index: int,
    pub matched: bool,
}

/// For each line, whether the pattern matches in it.
pub open spec fn hits_of(pattern: PatternView, lines: Seq<Seq<char>>) -> Seq<bool> {
    Seq::new(lines.len(), |i: int| pattern.matches(lines[i]))
}

/// The output for one match in the window modes: the lines of its window in
/// ascending order, the matched line among them shown as a match.
pub open spec fn window_picks(matched: int, total: int, before: int, after: int) -> Seq<Pick> {
    let lo = window_start(matched, before);
    let hi = window_end(matched, total, after);
    Seq::new((hi - lo) as nat, |k: int| Pick { index: lo + k, matched: lo + k == matched })
}

/// The output of the window modes for the lines below `upto`: the windows
/// of the matches, one after the other in the order of the matches. A line
/// that lies in several windows is shown once for each.
pub open spec fn context_picks(hits: Seq<bool>, before: int, after: int, upto: int) -> Seq<Pick>
    decreases upto,
{
    if upto <= 0 {
        Seq::empty()
    } else if hits[upto - 1] {
        context_picks(hits, before, after, upto - 1) + window_picks(
            upto - 1,
            hits.len() as int,
            before,
            after,
        )
    } else {
        context_picks(hits, before, after, upto - 1)
    }
}

/// Line `m` is a match whose section holds line `i`.
pub open spec fn hit_covers(hits: Seq<bool>, widths: Seq<int>, m: int, i: int) -> bool {
    &&& 0 <= m < hits.len()
    &&& hits[m]
    &&& section_first(widths, m) <= i < section_limit(widths, m)
}

/// Line `i` lies in the section of some match among the lines below `upto`.
pub open spec fn covered_below(hits: Seq<bool>, widths: Seq<int>, upto: int, i: int) -> bool {
    exists|m: int| m < upto && #[trigger] hit_covers(hits, widths, m, i)
}

/// Line `i` lies in the section of some match.
pub open spec fn covered(hits: Seq<bool>, widths: Seq<int>, i: int) -> bool {
    covered_below(hits, widths, hits.len() as int, i)
}

/// The output of the section mode for the lines below `upto`: every line
/// that lies in the section of some match, once, in the order of the lines;
/// a line is shown as a match if it is one.
pub open spec fn section_picks(hits: Seq<bool>, widths: Seq<int>, upto: int) -> Seq<Pick>
    decreases upto,
{
    if upto <= 0 {
        Seq::empty()
    } else if covered(hits, widths, upto - 1) {
        section_picks(hits, widths, upto - 1).push(
            Pick { index: upto - 1, matched: hits[upto - 1] },
        )
    } else {
        section_picks(hits, widths, upto - 1)
    }
}

/// The lines that a search shows, in the order in which it shows them.
pub open spec fn picks_of(mode: OutputMode, lines: Seq<Seq<char>>, hits: Seq<bool>) -> Seq<Pick> {
    match mode {
        OutputMode::Plain => context_picks(hits, 0, 0, hits.len() as int),
        OutputMode::Context { before, after } => context_picks(
            hits,
            before as int,
            after as int,
            hits.len() as int,
        ),
        OutputMode::Section { tab_width } => section_picks(
            hits,
            widths_of(lines, tab_width as int),
            hits.len() as int,
        ),
    }
}

/// `body` shows the matched line `line` with its matches emphasized. The
/// matches are located in the form in which the line is searched; their
/// ranges are applied to the line itself where the two are laid out alike,
/// which they are unless folding case moved the characters of the line.
/// Where it did, the line is shown as it stands.
pub open spec fn is_highlight(pattern: PatternView, line: Seq<char>, body: Seq<char>) -> bool {
    if same_layout(encode_utf8(line), encode_utf8(pattern.haystack(line))) {
        is_rendering(line, pattern.located(line), body)
    } else {
        body == line
    }
}

/// `text` shows the matched line at `index`: the line with its matches
/// emphasized, behind its number if numbers are shown.
pub open spec fn shows_match(
    pattern: PatternView,
    line: Seq<char>,
    index: int,
    line_numbers: bool,
    text: Seq<char>,
) -> bool {
    exists|body: Seq<char>| #[trigger]
        is_highlight(pattern, line, body) && text == labelled(line_numbers, index, body)
}

/// The text of a line that is shown only because it accompanies a match:
/// the line as it stands, which in the section mode carries its number if
/// numbers are shown.
pub open spec fn context_text(config: SearchConfig, index: int, line: Seq<char>) -> Seq<char> {
    match config.mode {
        OutputMode::Section { .. } => labelled(config.line_numbers, index, line),
        _ => line,
    }
}

/// The record shows what the pick asks for.
pub open spec fn shows(
    pattern: PatternView,
    config: SearchConfig,
    lines: Seq<Seq<char>>,
    pick: Pick,
    record: OutputRecord,
) -> bool {
    &&& 0 <= pick.index < lines.len()
    &&& record.index == pick.index
    &&& if pick.matched {
        shows_match(pattern, lines[pick.index], pick.index, config.line_numbers, record.text@)
    } else {
        record.text@ == context_text(config, pick.index, lines[pick.index])
    }
}

/// The records show the picks, one for one and in the same order.
pub open spec fn agrees(
    pattern: PatternView,
    config: SearchConfig,
    lines: Seq<Seq<char>>,
    picks: Seq<Pick>,
    out: Seq<OutputRecord>,
) -> bool {
    &&& out.len() == picks.len()
    &&& forall|k: int|
        0 <= k < out.len() ==> shows(pattern, config, lines, picks[k], #[trigger] out[k])
}

/// `out` is the output of searching `lines` for `pattern` under `config`.
pub open spec fn is_output(
    pattern: PatternView,
    config: SearchConfig,
    lines: Seq<Seq<char>>,
    out: Seq<OutputRecord>,
) -> bool {
    agrees(pattern, config, lines, picks_of(config.mode, lines, hits_of(pattern, lines)), out)
}

/// The indices rise strictly from each to the next, so none occurs twice.
pub open spec fn strictly_ascending(indices: Seq<int>) -> bool {
    forall|j: int, k: int| 0 <= j < k < indices.len() ==> indices[j] < indices[k]
}

/// The window modes show nothing for the lines in front of the only match,
/// and the window of that match once it is passed.
proof fn lemma_context_picks_of_one_hit(
    hits: Seq<bool>,
    before: int,
    after: int,
    at: int,
    upto: int,
)
    requires
        0 <= at < hits.len(),
        forall|j: int| 0 <= j < hits.len() ==> (hits[j] <==> j == at),
        0 <= upto <= hits.len(),
    ensures
        upto <= at ==> context_picks(hits, before, after, upto) == Seq::<Pick>::empty(),
        upto > at ==> context_picks(hits, before, after, upto) == window_picks(
            at,
            hits.len() as int,
            before,
            after,
        ),
    decreases upto,
{
    if upto > 0 {
        lemma_context_picks_of_one_hit(hits, before, after, at, upto - 1);
        if upto - 1 == at {
            assert(Seq::<Pick>::empty() + window_picks(at, hits.len() as int, before, after)
                =~= window_picks(at, hits.len() as int, before, after));
        }
    }
}

/// A single match that lies at least `before` lines behind the first line
/// and more than `after` lines in front of the end is shown with its full
/// window: `before + 1 + after` lines with consecutive ascending indices,
/// of which the matched line alone is shown as a match.
pub proof fn lemma_isolated_match_window(hits: Seq<bool>, before: int, after: int, at: int)
    requires
        0 <= at < hits.len(),
        forall|j: int| 0 <= j < hits.len() ==> (hits[j] <==> j == at),
        0 <= before <= at,
        0 <= after,
        at + after < hits.len(),
    ensures
        context_picks(hits, before, after, hits.len() as int).len() == before + 1 + after,
        forall|k: int|
            0 <= k < before + 1 + after ==> {
                &&& (#[trigger] context_picks(hits, before, after, hits.len() as int)[k]).index
                    == at - before + k
                &&& context_picks(hits, before, after, hits.len() as int)[k].matched == (k
                    == before)
            },
{
    lemma_context_picks_of_one_hit(hits, before, after, at, hits.len() as int);
}

/// Without context lines, what is shown of the lines below `upto` is the
/// lines in which the pattern matches: each of them, none twice, in
/// ascending order, and every one as a match.
pub proof fn lemma_plain_picks(hits: Seq<bool>, upto: int)
    requires
        0 <= upto <= hits.len(),
    ensures
        forall|k: int|
            0 <= k < context_picks(hits, 0, 0, upto).len() ==> {
                &&& 0 <= (#[trigger] context_picks(hits, 0, 0, upto)[k]).index < upto
                &&& hits[context_picks(hits, 0, 0, upto)[k].index]
                &&& context_picks(hits, 0, 0, upto)[k].matched
            },
        forall|j: int, k: int|
            0 <= j < k < context_picks(hits, 0, 0, upto).len() ==> (#[trigger] context_picks(
                hits,
                0,
                0,
                upto,
            )[j]).index < (#[trigger] context_picks(hits, 0, 0, upto)[k]).index,
        forall|i: int|
            0 <= i < upto && hits[i] ==> exists|k: int|
                0 <= k < context_picks(hits, 0, 0, upto).len() && (#[trigger] context_picks(
                    hits,
                    0,
                    0,
                    upto,
                )[k]).index == i,
    decreases upto,
{
    if upto > 0 {
        let shorter = context_picks(hits, 0, 0, upto - 1);
        let picks = context_picks(hits, 0, 0, upto);
        lemma_plain_picks(hits, upto - 1);
        assert forall|i: int| 0 <= i < upto && hits[i] implies exists|k: int|
            0 <= k < picks.len() && (#[trigger] picks[k]).index == i by {
            if i < upto - 1 {
                let k = choose|k: int| 0 <= k < shorter.len() && (#[trigger] shorter[k]).index == i;
                assert(picks[k].index == i);
            } else {
                assert(picks[picks.len() - 1].index == i);
            }
        }
    }
}

/// A line in which the pattern matches lies in its own section, so the
/// section mode shows every such line.
pub proof fn lemma_match_is_covered(hits: Seq<bool>, widths: Seq<int>, matched: int)
    requires
        0 <= matched < hits.len(),
        widths.len() == hits.len(),
        hits[matched],
    ensures
        covered(hits, widths, matched),
{
    lemma_section_holds_match(widths, matched);
    assert(hit_covers(hits, widths, matched, matched));
}

/// What the section mode shows of the lines below `upto`: lines that lie in
/// the section of a match, each of them, none twice, in strictly ascending
/// order, and as a match exactly those that are one.
pub proof fn lemma_section_picks(hits: Seq<bool>, widths: Seq<int>, upto: int)
    requires
        0 <= upto <= hits.len(),
    ensures
        forall|k: int|
            0 <= k < section_picks(hits, widths, upto).len() ==> {
                &&& 0 <= (#[trigger] section_picks(hits, widths, upto)[k]).index < upto
                &&& covered(hits, widths, section_picks(hits, widths, upto)[k].index)
                &&& section_picks(hits, widths, upto)[k].matched == hits[section_picks(
                    hits,
                    widths,
                    upto,
                )[k].index]
            },
        forall|j: int, k: int|
            0 <= j < k < section_picks(hits, widths, upto).len() ==> (#[trigger] section_picks(
                hits,
                widths,
                upto,
            )[j]).index < (#[trigger] section_picks(hits, widths, upto)[k]).index,
        forall|i: int|
            0 <= i < upto && covered(hits, widths, i) ==> exists|k: int|
                0 <= k < section_picks(hits, widths, upto).len() && (#[trigger] section_picks(
                    hits,
                    widths,
                    upto,
                )[k]).index == i,
    decreases upto,
{
    if upto > 0 {
        let shorter = section_picks(hits, widths, upto - 1);
        let picks = section_picks(hits, widths, upto);
        lemma_section_picks(hits, widths, upto - 1);
        assert forall|i: int| 0 <= i < upto && covered(hits, widths, i) implies exists|k: int|
            0 <= k < picks.len() && (#[trigger] picks[k]).index == i by {
            if i < upto - 1 {
                let k = choose|k: int| 0 <= k < shorter.len() && (#[trigger] shorter[k]).index == i;
                assert(picks[k].index == i);
            } else {
                assert(picks[picks.len() - 1].index == i);
            }
        }
    }
}

/// Searching the same lines for the same pattern by sections shows the
/// same lines whenever it is done, each once and in ascending order.
pub proof fn lemma_section_search_repeatable(
    pattern: PatternView,
    config: SearchConfig,
    lines: Seq<Seq<char>>,
    first: Seq<OutputRecord>,
    second: Seq<OutputRecord>,
)
    requires
        config.mode is Section,
        is_output(pattern, config, lines, first),
        is_output(pattern, config, lines, second),
    ensures
        indices_of(first) == indices_of(second),
        strictly_ascending(indices_of(first)),
{
    let hits = hits_of(pattern, lines);
    let picks = picks_of(config.mode, lines, hits);
    match config.mode {
        OutputMode::Section { tab_width } => {
            lemma_section_picks(hits, widths_of(lines, tab_width as int), hits.len() as int);
        },
        _ => {},
    }
    assert(indices_of(first) =~= indices_of(second)) by {
        assert forall|k: int| 0 <= k < first.len() implies indices_of(first)[k] == indices_of(
            second,
        )[k] by {
            assert(shows(pattern, config, lines, picks[k], first[k]));
            assert(shows(pattern, config, lines, picks[k], second[k]));
        }
    }
    assert forall|j: int, k: int| 0 <= j < k < indices_of(first).len() implies indices_of(
        first,
    )[j] < indices_of(first)[k] by {
        assert(shows(pattern, config, lines, picks[j], first[j]));
        assert(shows(pattern, config, lines, picks[k], first[k]));
    }
}

/// Scans one line of which the form in which it is searched is at hand.
fn scan_prepared(
    pattern: &PatternSpec,
    line: &str,
    haystack: &str,
    index: usize,
    config: &SearchConfig,
) -> (shown: Option<String>)
    requires
        haystack@ == pattern@.haystack(line@),
    ensures
        shown is Some <==> pattern@.matches(line@),
        shown matches Some(text) ==> shows_match(
            pattern@,
            line@,
            index as int,
            config.line_numbers,
            text@,
        ),
{
    if !pattern.is_match_prepared(haystack) {
        return None;
    }
    let body = if !pattern.case_insensitive() || layouts_agree(line, haystack) {
        let ranges = pattern.locate_prepared(haystack);
        proof {
            encode_utf8_valid_utf8(line@);
            encode_utf8_valid_utf8(haystack@);
            lemma_fits_same_layout(encode_utf8(line@), encode_utf8(haystack@), ranges@);
        }
        render(line, &ranges, &config.style)
    } else {
        line.to_owned()
    };
    assert(is_highlight(pattern@, line@, body@));
    Some(label(config.line_numbers, index, body))
}

/// Scans one line. If the pattern does not match in it, nothing is shown
/// for it on its own account; if it does, the line is rendered with its
/// matches emphasized and, if numbers are shown, its number in front.
pub fn scan_line(pattern: &PatternSpec, line: &str, index: usize, config: &SearchConfig) -> (shown:
    Option<String>)
    ensures
        shown is Some <==> pattern@.matches(line@),
        shown matches Some(text) ==> shows_match(
            pattern@,
            line@,
            index as int,
            config.line_numbers,
            text@,
        ),
{
    if pattern.case_insensitive() {
        let haystack = fold(line, true);
        scan_prepared(pattern, line, haystack.as_str(), index, config)
    } else {
        scan_prepared(pattern, line, line, index, config)
    }
}

/// Appends to `out` the lines from `lo` up to `hi` as they stand.
fn push_plain(out: &mut Vec<OutputRecord>, lines: &Vec<String>, lo: usize, hi: usize)
    requires
        lo <= hi <= lines.len(),
    ensures
        final(out)@.len() == old(out)@.len() + (hi - lo),
        forall|k: int| 0 <= k < old(out)@.len() ==> final(out)@[k] == old(out)@[k],
        forall|k: int|
            old(out)@.len() <= k < final(out)@.len() ==> {
                &&& (#[trigger] final(out)@[k]).index == lo + (k - old(out)@.len())
                &&& final(out)@[k].text@ == lines@[lo + (k - old(out)@.len())]@
            },
{
    let mut next: usize = lo;
    while next < hi
        invariant
            lo <= next <= hi <= lines.len(),
            out@.len() == old(out)@.len() + (next - lo),
            forall|k: int| 0 <= k < old(out)@.len() ==> out@[k] == old(out)@[k],
            forall|k: int|
                old(out)@.len() <= k < out@.len() ==> {
                    &&& (#[trigger] out@[k]).index == lo + (k - old(out)@.len())
                    &&& out@[k].text@ == lines@[lo + (k - old(out)@.len())]@
                },
        decreases hi - next,
    {
        out.push(OutputRecord { index: next, text: lines[next].clone() });
        next += 1;
    }
}

/// Searches in the plain or the context mode: every match gives its window
/// as soon as it is found.
fn search_windows(
    lines: &Vec<String>,
    pattern: &PatternSpec,
    config: &SearchConfig,
    before: usize,
    after: usize,
) -> (out: Vec<OutputRecord>)
    requires
        !(config.mode is Section),
    ensures
        agrees(
            pattern@,
            *config,
            texts_of(lines@),
            context_picks(
                hits_of(pattern@, texts_of(lines@)),
                before as int,
                after as int,
                lines.len() as int,
            ),
            out@,
        ),
{
    let total: usize = lines.len();
    let ghost texts = texts_of(lines@);
    let ghost hits = hits_of(pattern@, texts);
    let mut out: Vec<OutputRecord> = Vec::new();
    let mut i: usize = 0;
    while i < total
        invariant
            i <= total == lines.len(),
            texts == texts_of(lines@),
            hits == hits_of(pattern@, texts),
            !(config.mode is Section),
            agrees(
                pattern@,
                *config,
                texts_of(lines@),
                context_picks(hits, before as int, after as int, i as int),
                out@,
            ),
        decreases total - i,
    {
        let shown = scan_line(pattern, lines[i].as_str(), i, config);
        match shown {
            Some(text) => {
                let bounds = window_bounds(i, total, before, after);
                let ghost earlier = out@;
                let ghost shown_text = text@;
                push_plain(&mut out, lines, bounds.0, i);
                out.push(OutputRecord { index: i, text });
                push_plain(&mut out, lines, i + 1, bounds.1);
                proof {
                    let picks_before = context_picks(hits, before as int, after as int, i as int);
                    let window = window_picks(i as int, total as int, before as int, after as int);
                    let picks_after = context_picks(
                        hits,
                        before as int,
                        after as int,
                        i as int + 1,
                    );
                    assert(picks_after == picks_before + window);
                    assert forall|k: int| 0 <= k < out@.len() implies shows(
                        pattern@,
                        *config,
                        texts_of(lines@),
                        picks_after[k],
                        #[trigger] out@[k],
                    ) by {
                        if k < earlier.len() {
                            assert(picks_after[k] == picks_before[k]);
                        } else {
                            let w = k - earlier.len();
                            assert(picks_after[k] == window[w]);
                            if bounds.0 + w == i {
                                assert(out@[k].text@ == shown_text);
                            }
                        }
                    }
                }
            },
            None => {},
        }
        i += 1;
    }
    out
}

/// What the slated lines of a finished section scan are to the picks of the
/// section mode: the same lines in the same order.
proof fn lemma_slated_are_picks(hits: Seq<bool>, widths: Seq<int>, slated: Set<int>, upto: int)
    requires
        0 <= upto <= hits.len(),
        forall|j: int| 0 <= j < hits.len() ==> (slated.contains(j) <==> covered(hits, widths, j)),
    ensures
        section_picks(hits, widths, upto).len() == slated_below(slated, upto).len(),
        forall|k: int|
            0 <= k < slated_below(slated, upto).len() ==> {
                &&& (#[trigger] section_picks(hits, widths, upto)[k]).index == slated_below(
                    slated,
                    upto,
                )[k]
                &&& section_picks(hits, widths, upto)[k].matched == hits[slated_below(
                    slated,
                    upto,
                )[k]]
            },
    decreases upto,
{
    if upto > 0 {
        lemma_slated_are_picks(hits, widths, slated, upto - 1);
    }
}

/// Searches in the section mode: the sections of all matches are
/// accumulated during the scan and drained once after it.
fn search_sections(
    lines: &Vec<String>,
    pattern: &PatternSpec,
    config: &SearchConfig,
    tab_width: usize,
) -> (out: Vec<OutputRecord>)
    requires
        config.mode == (OutputMode::Section { tab_width }),
    ensures
        agrees(
            pattern@,
            *config,
            texts_of(lines@),
            section_picks(
                hits_of(pattern@, texts_of(lines@)),
                widths_of(texts_of(lines@), tab_width as int),
                lines.len() as int,
            ),
            out@,
        ),
{
    let total: usize = lines.len();
    let ghost texts = texts_of(lines@);
    let ghost hits = hits_of(pattern@, texts);
    let ghost model = widths_of(texts, tab_width as int);
    let records = derive_records(lines, tab_width);
    let mut acc = SectionAccumulator::new(total);
    let mut i: usize = 0;
    while i < total
        invariant
            i <= total == lines.len(),
            records.len() == total,
            texts == texts_of(lines@),
            hits == hits_of(pattern@, texts),
            model == widths_in(records@),
            acc@.total == total,
            forall|j: int| #[trigger]
                acc@.slated.contains(j) <==> covered_below(hits, model, i as int, j),
            forall|m: int| #[trigger] acc@.rendered.dom().contains(m) <==> 0 <= m < i && hits[m],
            forall|m: int|
                acc@.rendered.dom().contains(m) ==> shows_match(
                    pattern@,
                    texts[m],
                    m,
                    config.line_numbers,
                    #[trigger] acc@.rendered[m],
                ),
        decreases total - i,
    {
        let shown = scan_line(pattern, lines[i].as_str(), i, config);
        let ghost earlier = acc@;
        let ghost found = shown;
        match shown {
            Some(text) => {
                acc.record(i, text);
                let bounds = section_bounds(&records, i);
                acc.slate(bounds.0, bounds.1);
            },
            None => {},
        }
        proof {
            assert(hits[i as int] == found is Some);
            assert forall|m: int| acc@.rendered.dom().contains(m) <==> 0 <= m < i + 1
                && hits[m] by {
                if found is Some {
                    assert(acc@.rendered == earlier.rendered.insert(i as int, found->0@));
                } else {
                    assert(acc@.rendered == earlier.rendered);
                }
            }
            assert forall|j: int| acc@.slated.contains(j) <==> covered_below(
                hits,
                model,
                i as int + 1,
                j,
            ) by {
                if covered_below(hits, model, i as int + 1, j) {
                    let m = choose|m: int| m < i + 1 && #[trigger] hit_covers(hits, model, m, j);
                    if m < i {
                        assert(covered_below(hits, model, i as int, j));
                    }
                }
                if earlier.slated.contains(j) {
                    let m = choose|m: int| m < i && #[trigger] hit_covers(hits, model, m, j);
                    assert(hit_covers(hits, model, m, j));
                }
                if hits[i as int] && section_first(model, i as int) <= j < section_limit(
                    model,
                    i as int,
                ) {
                    assert(hit_covers(hits, model, i as int, j));
                }
            }
        }
        i += 1;
    }
    let ghost filled = acc@;
    let out = acc.drain(lines, config.line_numbers);
    proof {
        lemma_slated_are_picks(hits, model, filled.slated, total as int);
        lemma_slated_below(filled.slated, total as int);
        let picks = section_picks(hits, model, total as int);
        let order = slated_below(filled.slated, total as int);
        assert forall|k: int| 0 <= k < out@.len() implies shows(
            pattern@,
            *config,
            texts_of(lines@),
            picks[k],
            #[trigger] out@[k],
        ) by {
            assert(picks[k].index == order[k]);
        }
    }
    out
}

/// Searches `lines` for `pattern` and returns what is to be printed, in
/// order. In the plain and context modes each match gives its window as
/// soon as it is found; in the section mode the sections of all matches
/// are collected and given once, merged, after the last line was scanned.
pub fn search(lines: &Vec<String>, pattern: &PatternSpec, config: &SearchConfig) -> (out: Vec<
    OutputRecord,
>)
    ensures
        is_output(pattern@, *config, texts_of(lines@), out@),
{
    match config.mode {
        OutputMode::Plain => search_windows(lines, pattern, config, 0, 0),
        OutputMode::Context { before, after } => search_windows(
            lines,
            pattern,
            config,
            before,
            after,
        ),
        OutputMode::Section { tab_width } => search_sections(lines, pattern, config, tab_width),
    }
}

} // verus!
