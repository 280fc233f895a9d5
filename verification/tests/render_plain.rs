use mygrep::driver::{scan_line, search, SearchConfig};
use mygrep::pattern::{PatternKind, PatternSpec};
use mygrep::range::MatchRange;
use mygrep::record::OutputRecord;
use mygrep::render::{cut_pieces, render, splice};
use mygrep::select::OutputMode;
use mygrep::style::StyleSpec;

fn ranges(pairs: &[(usize, usize)]) -> Vec<MatchRange> {
    pairs.iter().map(|&(start, end)| MatchRange { start, end }).collect()
}

fn strings(texts: &[&str]) -> Vec<String> {
    texts.iter().map(|text| text.to_string()).collect()
}

fn record(index: usize, text: &str) -> OutputRecord {
    OutputRecord { index, text: text.to_string() }
}

fn pattern(kind: PatternKind, text: &str, case_insensitive: bool) -> PatternSpec {
    match PatternSpec::new(kind, text, case_insensitive) {
        Ok(pattern) => pattern,
        Err(_) => panic!("the pattern should compile"),
    }
}

fn config(mode: OutputMode, line_numbers: bool) -> SearchConfig {
    SearchConfig { mode, line_numbers, style: StyleSpec::default() }
}

#[test]
fn fragments_replace_ranges_by_offset() {
    let out = splice("bar foo baz", &ranges(&[(4, 7)]), &strings(&["<FOO>"]));
    assert_eq!(out, "bar <FOO> baz");
}

#[test]
fn splicing_without_ranges_keeps_the_line() {
    assert_eq!(splice("bar foo baz", &ranges(&[]), &strings(&[])), "bar foo baz");
    assert_eq!(splice("", &ranges(&[]), &strings(&[])), "");
}

#[test]
fn adjacent_and_outer_ranges_are_spliced() {
    let out = splice("foofoo", &ranges(&[(0, 3), (3, 6)]), &strings(&["A", "B"]));
    assert_eq!(out, "AB");
    let out = splice("xfooyfooz", &ranges(&[(1, 4), (5, 8)]), &strings(&["[1]", "[2]"]));
    assert_eq!(out, "x[1]y[2]z");
}

#[test]
fn empty_ranges_insert_their_fragment() {
    let out = splice("abc", &ranges(&[(0, 0), (1, 1), (3, 3)]), &strings(&["<", "|", ">"]));
    assert_eq!(out, "<a|bc>");
}

#[test]
fn a_fragment_is_never_searched_again() {
    let out = splice("a a", &ranges(&[(0, 1), (2, 3)]), &strings(&["<a>", "<a>"]));
    assert_eq!(out, "<a> <a>");
    let out = splice("1 1", &ranges(&[(0, 1), (2, 3)]), &strings(&["[1m1[0m", "[1m1[0m"]));
    assert_eq!(out, "[1m1[0m [1m1[0m");
}

#[test]
fn only_the_ranges_are_replaced_not_equal_text_elsewhere() {
    let out = splice("foo foo foo", &ranges(&[(4, 7)]), &strings(&["FOO"]));
    assert_eq!(out, "foo FOO foo");
}

#[test]
fn multibyte_text_is_spliced_between_characters() {
    let line = "caf\u{e9} noir";
    let out = splice(line, &ranges(&[(3, 5)]), &strings(&["E"]));
    assert_eq!(out, "cafE noir");
    let out = splice(line, &ranges(&[(0, 5)]), &strings(&["\u{2615}"]));
    assert_eq!(out, "\u{2615} noir");
}

#[test]
fn pieces_are_cut_range_by_range() {
    assert_eq!(cut_pieces("bar foo baz", &ranges(&[(0, 3), (4, 7), (11, 11)])), vec!["bar", "foo", ""]);
    assert_eq!(cut_pieces("caf\u{e9} noir", &ranges(&[(3, 5)])), vec!["\u{e9}"]);
    assert_eq!(cut_pieces("abc", &ranges(&[])), Vec::<&str>::new());
}

#[test]
fn splicing_its_own_pieces_into_a_line_gives_the_line() {
    let line = "x\u{e9}foo y foo\u{1f600}";
    let found = ranges(&[(0, 1), (3, 6), (6, 6), (9, 12)]);
    let pieces: Vec<String> =
        cut_pieces(line, &found).iter().map(|piece| piece.to_string()).collect();
    assert_eq!(splice(line, &found, &pieces), line);
}

#[test]
fn without_colors_a_rendered_line_is_the_line() {
    colored::control::set_override(false);
    let style = StyleSpec::default();
    assert_eq!(render("bar foo baz", &ranges(&[(4, 7)]), &style), "bar foo baz");
    assert_eq!(render("", &ranges(&[(0, 0)]), &style), "");
}

#[test]
fn a_line_without_match_shows_nothing() {
    colored::control::set_override(false);
    let needle = pattern(PatternKind::Literal, "foo", false);
    assert_eq!(scan_line(&needle, "qux", 0, &config(OutputMode::Plain, true)), None);
}

#[test]
fn a_matched_line_carries_its_number_if_asked() {
    colored::control::set_override(false);
    let needle = pattern(PatternKind::Literal, "foo", false);
    let numbered = config(OutputMode::Plain, true);
    let bare = config(OutputMode::Plain, false);
    assert_eq!(scan_line(&needle, "a foo", 4, &numbered), Some("5: a foo".to_string()));
    assert_eq!(scan_line(&needle, "a foo", 4, &bare), Some("a foo".to_string()));
}

#[test]
fn plain_mode_shows_the_matched_lines() {
    colored::control::set_override(false);
    let input = strings(&["foo", "bar foo baz", "qux"]);
    let needle = pattern(PatternKind::Literal, "foo", false);
    let out = search(&input, &needle, &config(OutputMode::Plain, false));
    assert_eq!(out, vec![record(0, "foo"), record(1, "bar foo baz")]);
}

#[test]
fn nothing_is_shown_where_nothing_matches() {
    colored::control::set_override(false);
    let input = strings(&["a", "b"]);
    let needle = pattern(PatternKind::Literal, "foo", false);
    for mode in [
        OutputMode::Plain,
        OutputMode::Context { before: 2, after: 2 },
        OutputMode::Section { tab_width: 4 },
    ] {
        assert_eq!(search(&input, &needle, &config(mode, true)), Vec::<OutputRecord>::new());
    }
    let empty: Vec<String> = Vec::new();
    assert_eq!(
        search(&empty, &needle, &config(OutputMode::Plain, true)),
        Vec::<OutputRecord>::new()
    );
}

#[test]
fn an_isolated_match_is_shown_with_its_whole_window() {
    colored::control::set_override(false);
    let input = strings(&["l0", "l1", "l2", "hit", "l4", "l5", "l6"]);
    let needle = pattern(PatternKind::Literal, "hit", false);
    let mode = OutputMode::Context { before: 2, after: 1 };
    let out = search(&input, &needle, &config(mode, false));
    assert_eq!(out, vec![record(1, "l1"), record(2, "l2"), record(3, "hit"), record(4, "l4")]);
    assert_eq!(out.len(), 2 + 1 + 1);
}

#[test]
fn windows_are_clamped_at_the_ends_of_the_input() {
    colored::control::set_override(false);
    let input = strings(&["hit a", "l1", "hit b"]);
    let needle = pattern(PatternKind::Literal, "hit", false);
    let mode = OutputMode::Context { before: 1, after: 5 };
    let out = search(&input, &needle, &config(mode, false));
    assert_eq!(
        out,
        vec![
            record(0, "hit a"),
            record(1, "l1"),
            record(2, "hit b"),
            record(1, "l1"),
            record(2, "hit b"),
        ]
    );
}

#[test]
fn overlapping_windows_show_a_line_once_for_each() {
    colored::control::set_override(false);
    let input = strings(&["a", "hit 1", "b", "hit 2", "c"]);
    let needle = pattern(PatternKind::Literal, "hit", false);
    let mode = OutputMode::Context { before: 1, after: 1 };
    let out = search(&input, &needle, &config(mode, false));
    assert_eq!(
        out,
        vec![
            record(0, "a"),
            record(1, "hit 1"),
            record(2, "b"),
            record(2, "b"),
            record(3, "hit 2"),
            record(4, "c"),
        ]
    );
}

#[test]
fn only_the_matched_line_of_a_window_is_numbered() {
    colored::control::set_override(false);
    let input = strings(&["a", "hit", "b"]);
    let needle = pattern(PatternKind::Literal, "hit", false);
    let mode = OutputMode::Context { before: 1, after: 1 };
    let out = search(&input, &needle, &config(mode, true));
    assert_eq!(out, vec![record(0, "a"), record(1, "2: hit"), record(2, "b")]);
}

#[test]
fn a_section_is_shown_with_its_header() {
    colored::control::set_override(false);
    let input = strings(&["head", "  a", "  hit", "    c", "tail"]);
    let needle = pattern(PatternKind::Literal, "hit", false);
    let out = search(&input, &needle, &config(OutputMode::Section { tab_width: 4 }, false));
    assert_eq!(
        out,
        vec![record(0, "head"), record(1, "  a"), record(2, "  hit"), record(3, "    c")]
    );
}

#[test]
fn sections_of_several_matches_merge() {
    colored::control::set_override(false);
    let input = strings(&[
        "fn one",
        "    hit a",
        "    plain",
        "fn two",
        "    nothing",
        "fn three",
        "    hit b",
        "        hit c",
        "end",
    ]);
    let needle = pattern(PatternKind::Literal, "hit", false);
    let out = search(&input, &needle, &config(OutputMode::Section { tab_width: 4 }, false));
    let shown: Vec<usize> = out.iter().map(|record| record.index).collect();
    assert_eq!(shown, vec![0, 1, 2, 5, 6, 7]);
    assert_eq!(out[1], record(1, "    hit a"));
    assert_eq!(out[5], record(7, "        hit c"));
}

#[test]
fn every_line_of_a_section_is_numbered_if_asked() {
    colored::control::set_override(false);
    let input = strings(&["head", "  hit", "  more", "tail"]);
    let needle = pattern(PatternKind::Literal, "hit", false);
    let out = search(&input, &needle, &config(OutputMode::Section { tab_width: 4 }, true));
    assert_eq!(out, vec![record(0, "1: head"), record(1, "2:   hit"), record(2, "3:   more")]);
}

#[test]
fn a_section_search_gives_the_same_lines_each_time() {
    colored::control::set_override(false);
    let input = strings(&["a", "  hit", "  b", "c", "  hit", "    d"]);
    let needle = pattern(PatternKind::Literal, "hit", false);
    let setup = config(OutputMode::Section { tab_width: 4 }, false);
    let first = search(&input, &needle, &setup);
    let second = search(&input, &needle, &setup);
    assert_eq!(first, second);
    let shown: Vec<usize> = first.iter().map(|record| record.index).collect();
    assert_eq!(shown, vec![0, 1, 2, 3, 4, 5]);
    for pair in shown.windows(2) {
        assert!(pair[0] < pair[1]);
    }
}

#[test]
fn a_match_at_top_level_takes_the_whole_input_as_its_section() {
    colored::control::set_override(false);
    let input = strings(&["a", "  b", "hit", "  c"]);
    let needle = pattern(PatternKind::Literal, "hit", false);
    let out = search(&input, &needle, &config(OutputMode::Section { tab_width: 4 }, false));
    let shown: Vec<usize> = out.iter().map(|record| record.index).collect();
    assert_eq!(shown, vec![0, 1, 2, 3]);
}

#[test]
fn a_regex_search_shows_the_lines_it_matches() {
    colored::control::set_override(false);
    let input = strings(&["abc 123", "no digits", "42"]);
    let needle = pattern(PatternKind::Regex, "[0-9]+", false);
    let out = search(&input, &needle, &config(OutputMode::Plain, true));
    assert_eq!(out, vec![record(0, "1: abc 123"), record(2, "3: 42")]);
}

#[test]
fn a_search_that_ignores_case_shows_the_lines_as_they_stand() {
    colored::control::set_override(false);
    let input = strings(&["Foo", "bar", "a FOO b"]);
    let needle = pattern(PatternKind::Literal, "foo", true);
    let out = search(&input, &needle, &config(OutputMode::Plain, false));
    assert_eq!(out, vec![record(0, "Foo"), record(2, "a FOO b")]);
}

#[test]
fn without_colors_emphasis_adds_nothing() {
    colored::control::set_override(false);
    let style =
        StyleSpec { color: mygrep::style::Color::Blue, bold: true, underline: true, italic: true, strike: true };
    let line = "x foo \u{1b}[0m y";
    assert_eq!(render(line, &ranges(&[(2, 5), (6, 10)]), &style), line);
}
