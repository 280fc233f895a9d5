use mygrep::driver::{search, SearchConfig};
use mygrep::pattern::{PatternKind, PatternSpec};
use mygrep::range::MatchRange;
use mygrep::record::OutputRecord;
use mygrep::render::render;
use mygrep::select::OutputMode;
use mygrep::style::{Color, StyleSpec};

const BOLD_RED_FOO: &str = "\x1b[1m\x1b[31mfoo\x1b[0m\x1b[1m\x1b[0m";

fn ranges(pairs: &[(usize, usize)]) -> Vec<MatchRange> {
    pairs.iter().map(|&(start, end)| MatchRange { start, end }).collect()
}

fn strings(texts: &[&str]) -> Vec<String> {
    texts.iter().map(|text| text.to_string()).collect()
}

fn record(index: usize, text: String) -> OutputRecord {
    OutputRecord { index, text }
}

fn pattern(kind: PatternKind, text: &str, case_insensitive: bool) -> PatternSpec {
    match PatternSpec::new(kind, text, case_insensitive) {
        Ok(pattern) => pattern,
        Err(_) => panic!("the pattern should compile"),
    }
}

fn holds_all_of(outer: &str, inner: &str) -> bool {
    let mut rest = outer.chars();
    inner.chars().all(|wanted| rest.any(|found| found == wanted))
}

fn only(color: Color) -> StyleSpec {
    StyleSpec { color, bold: false, underline: false, italic: false, strike: false }
}

#[test]
fn a_match_is_wrapped_in_bold_red_by_default() {
    colored::control::set_override(true);
    let out = render("bar foo baz", &ranges(&[(4, 7)]), &StyleSpec::default());
    assert_eq!(out, format!("bar {} baz", BOLD_RED_FOO));
}

#[test]
fn a_color_alone_is_applied() {
    colored::control::set_override(true);
    let out = render("a foo", &ranges(&[(2, 5)]), &only(Color::Blue));
    assert_eq!(out, "a \x1b[34mfoo\x1b[0m");
    let out = render("a foo", &ranges(&[(2, 5)]), &only(Color::Black));
    assert_eq!(out, "a \x1b[30mfoo\x1b[0m");
}

#[test]
fn bright_colors_are_bright() {
    colored::control::set_override(true);
    let out = render("foo", &ranges(&[(0, 3)]), &only(Color::BrightRed));
    assert_eq!(out, "\x1b[91mfoo\x1b[0m");
    let out = render("foo", &ranges(&[(0, 3)]), &only(Color::BrightWhite));
    assert_eq!(out, "\x1b[97mfoo\x1b[0m");
}

#[test]
fn attributes_nest_around_the_color_in_a_fixed_order() {
    colored::control::set_override(true);
    let style =
        StyleSpec { color: Color::Green, bold: false, underline: true, italic: true, strike: false };
    let out = render("x", &ranges(&[(0, 1)]), &style);
    let tinted = "\x1b[32mx\x1b[0m";
    let underlined = format!("\x1b[4m{}\x1b[4m\x1b[0m", tinted);
    let italic = format!("\x1b[3m{}\x1b[0m", underlined.replace("\x1b[0m", "\x1b[0m\x1b[3m"));
    assert_eq!(out, italic);
}

#[test]
fn strikethrough_is_the_outermost_attribute() {
    colored::control::set_override(true);
    let style =
        StyleSpec { color: Color::Red, bold: true, underline: false, italic: false, strike: true };
    let out = render("foo", &ranges(&[(0, 3)]), &style);
    let struck =
        format!("\x1b[9m{}\x1b[0m", BOLD_RED_FOO.replace("\x1b[0m", "\x1b[0m\x1b[9m"));
    assert_eq!(out, struck);
}

#[test]
fn every_range_is_styled_on_its_own() {
    colored::control::set_override(true);
    let out = render("foo foo", &ranges(&[(0, 3), (4, 7)]), &StyleSpec::default());
    assert_eq!(out, format!("{} {}", BOLD_RED_FOO, BOLD_RED_FOO));
}

#[test]
fn markup_of_an_earlier_range_is_not_styled_again() {
    colored::control::set_override(true);
    let one = "\x1b[1m\x1b[31m1\x1b[0m\x1b[1m\x1b[0m";
    let out = render("1 m 1", &ranges(&[(0, 1), (4, 5)]), &StyleSpec::default());
    assert_eq!(out, format!("{} m {}", one, one));
}

#[test]
fn text_equal_to_a_match_but_outside_the_ranges_stays_plain() {
    colored::control::set_override(true);
    let out = render("foo foo", &ranges(&[(4, 7)]), &StyleSpec::default());
    assert_eq!(out, format!("foo {}", BOLD_RED_FOO));
}

#[test]
fn matched_lines_are_shown_with_the_match_emphasized() {
    colored::control::set_override(true);
    let input = strings(&["foo", "bar foo baz", "qux"]);
    let needle = pattern(PatternKind::Literal, "foo", false);
    let setup =
        SearchConfig { mode: OutputMode::Plain, line_numbers: false, style: StyleSpec::default() };
    let out = search(&input, &needle, &setup);
    assert_eq!(
        out,
        vec![
            record(0, BOLD_RED_FOO.to_string()),
            record(1, format!("bar {} baz", BOLD_RED_FOO)),
        ]
    );
}

#[test]
fn the_line_number_stands_in_front_of_the_rendered_line() {
    colored::control::set_override(true);
    let input = strings(&["qux", "bar foo baz"]);
    let needle = pattern(PatternKind::Literal, "foo", false);
    let setup =
        SearchConfig { mode: OutputMode::Plain, line_numbers: true, style: StyleSpec::default() };
    let out = search(&input, &needle, &setup);
    assert_eq!(out, vec![record(1, format!("2: bar {} baz", BOLD_RED_FOO))]);
}

#[test]
fn a_match_found_ignoring_case_is_emphasized_as_it_is_written() {
    colored::control::set_override(true);
    let input = strings(&["a FOO b"]);
    let needle = pattern(PatternKind::Literal, "foo", true);
    let setup =
        SearchConfig { mode: OutputMode::Plain, line_numbers: false, style: only(Color::Red) };
    let out = search(&input, &needle, &setup);
    assert_eq!(out, vec![record(0, "a \x1b[31mFOO\x1b[0m b".to_string())]);
}

#[test]
fn a_line_that_folding_rearranges_is_shown_without_emphasis() {
    colored::control::set_override(true);
    let line = "\u{130}stanbul FOO";
    let input = strings(&[line]);
    let needle = pattern(PatternKind::Literal, "foo", true);
    let setup =
        SearchConfig { mode: OutputMode::Plain, line_numbers: true, style: only(Color::Red) };
    let out = search(&input, &needle, &setup);
    assert_eq!(out, vec![record(0, format!("1: {}", line))]);
}

#[test]
fn a_folded_line_with_the_same_layout_keeps_its_emphasis() {
    colored::control::set_override(true);
    let input = strings(&["\u{c9}T\u{c9} foo"]);
    let needle = pattern(PatternKind::Literal, "\u{e9}t\u{e9}", true);
    let setup =
        SearchConfig { mode: OutputMode::Plain, line_numbers: false, style: only(Color::Red) };
    let out = search(&input, &needle, &setup);
    assert_eq!(out, vec![record(0, "\x1b[31m\u{c9}T\u{c9}\x1b[0m foo".to_string())]);
}

#[test]
fn a_line_inside_a_section_is_emphasized_if_it_matches_itself() {
    colored::control::set_override(true);
    let input = strings(&["head", "  foo", "  bar"]);
    let needle = pattern(PatternKind::Literal, "foo", false);
    let setup = SearchConfig {
        mode: OutputMode::Section { tab_width: 4 },
        line_numbers: false,
        style: only(Color::Red),
    };
    let out = search(&input, &needle, &setup);
    assert_eq!(
        out,
        vec![
            record(0, "head".to_string()),
            record(1, "  \x1b[31mfoo\x1b[0m".to_string()),
            record(2, "  bar".to_string()),
        ]
    );
}

#[test]
fn regex_matches_are_emphasized_one_by_one() {
    colored::control::set_override(true);
    let input = strings(&["a1b22"]);
    let needle = pattern(PatternKind::Regex, "[0-9]+", false);
    let setup =
        SearchConfig { mode: OutputMode::Plain, line_numbers: false, style: only(Color::Cyan) };
    let out = search(&input, &needle, &setup);
    assert_eq!(out, vec![record(0, "a\x1b[36m1\x1b[0mb\x1b[36m22\x1b[0m".to_string())]);
}

#[test]
fn emphasis_adds_characters_and_takes_none_away() {
    colored::control::set_override(true);
    let line = "a\u{e9} foo \u{1b}[0m foo b";
    let found = ranges(&[(4, 7), (8, 12), (13, 16)]);
    let styles = [
        StyleSpec::default(),
        only(Color::BrightCyan),
        StyleSpec { color: Color::Green, bold: true, underline: true, italic: true, strike: true },
    ];
    for style in styles {
        let out = render(line, &found, &style);
        assert!(out.len() > line.len());
        assert!(holds_all_of(&out, line));
        assert!(!holds_all_of(line, &out));
    }
}
