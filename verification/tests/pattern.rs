use mygrep::pattern::{MatchError, PatternKind, PatternSpec};
use mygrep::range::MatchRange;

fn ranges(pairs: &[(usize, usize)]) -> Vec<MatchRange> {
    pairs.iter().map(|&(start, end)| MatchRange { start, end }).collect()
}

fn literal(text: &str, case_insensitive: bool) -> PatternSpec {
    match PatternSpec::new(PatternKind::Literal, text, case_insensitive) {
        Ok(pattern) => pattern,
        Err(_) => panic!("a literal pattern is never refused"),
    }
}

fn regular(text: &str, case_insensitive: bool) -> PatternSpec {
    match PatternSpec::new(PatternKind::Regex, text, case_insensitive) {
        Ok(pattern) => pattern,
        Err(_) => panic!("the pattern should compile"),
    }
}

#[test]
fn an_invalid_regex_is_refused_when_the_pattern_is_made() {
    let made = PatternSpec::new(PatternKind::Regex, "(", false);
    match made {
        Err(MatchError::InvalidPattern { pattern }) => assert_eq!(pattern, "("),
        Ok(_) => panic!("an unbalanced parenthesis must not compile"),
    }
}

#[test]
fn the_refused_pattern_is_reported_as_it_was_searched_for() {
    let made = PatternSpec::new(PatternKind::Regex, "(ABC", true);
    match made {
        Err(MatchError::InvalidPattern { pattern }) => assert_eq!(pattern, "(abc"),
        Ok(_) => panic!("an unbalanced parenthesis must not compile"),
    }
}

#[test]
fn a_literal_pattern_is_never_refused() {
    assert!(PatternSpec::new(PatternKind::Literal, "(", false).is_ok());
    assert!(PatternSpec::new(PatternKind::Literal, "[a-", true).is_ok());
    assert!(PatternSpec::new(PatternKind::Literal, "", false).is_ok());
}

#[test]
fn a_pattern_remembers_how_it_was_made() {
    let pattern = regular("Fo+", true);
    assert_eq!(pattern.kind(), PatternKind::Regex);
    assert_eq!(pattern.text(), "Fo+");
    assert!(pattern.case_insensitive());
    let pattern = literal("Fo+", false);
    assert_eq!(pattern.kind(), PatternKind::Literal);
    assert_eq!(pattern.text(), "Fo+");
    assert!(!pattern.case_insensitive());
}

#[test]
fn a_literal_pattern_has_no_special_characters() {
    let pattern = literal("a.c", false);
    assert!(pattern.is_match("xa.cx"));
    assert!(!pattern.is_match("xabcx"));
    assert_eq!(pattern.locate("a.c abc a.c"), ranges(&[(0, 3), (8, 11)]));
}

#[test]
fn a_literal_is_not_counted_twice_where_it_overlaps_itself() {
    let pattern = literal("aa", false);
    assert_eq!(pattern.locate("aaa"), ranges(&[(0, 2)]));
}

#[test]
fn a_regex_matches_anywhere_in_the_line() {
    let pattern = regular("a.c", false);
    assert!(pattern.is_match("xabcx"));
    assert!(pattern.is_match("a.c"));
    assert!(!pattern.is_match("ac"));
    assert!(!pattern.is_match(""));
}

#[test]
fn a_regex_locates_all_non_overlapping_matches() {
    let pattern = regular("[0-9]+", false);
    assert_eq!(pattern.locate("a111b222c"), ranges(&[(1, 4), (5, 8)]));
    assert_eq!(pattern.locate("none"), ranges(&[]));
    let pattern = regular("aba", false);
    assert_eq!(pattern.locate("ababa"), ranges(&[(0, 3)]));
}

#[test]
fn a_regex_may_match_the_empty_string() {
    let pattern = regular("a*", false);
    assert!(pattern.is_match("bbb"));
    assert_eq!(pattern.locate("baaa"), ranges(&[(0, 0), (1, 4)]));
    assert_eq!(pattern.locate("ab"), ranges(&[(0, 1), (2, 2)]));
}

#[test]
fn regex_offsets_are_byte_offsets_on_character_boundaries() {
    let pattern = regular("\\p{Greek}+", false);
    let line = "Greek: \u{3b1}\u{3b2}\u{3b3}\u{3b4}";
    assert_eq!(pattern.locate(line), ranges(&[(7, 15)]));
    let pattern = regular(".", false);
    assert_eq!(pattern.locate("\u{e9}a"), ranges(&[(0, 2), (2, 3)]));
}

#[test]
fn case_is_ignored_by_lower_casing_line_and_pattern() {
    let pattern = literal("FOO", true);
    assert!(pattern.is_match("a foo b"));
    assert!(pattern.is_match("a Foo b"));
    assert!(pattern.is_match("a FOO b"));
    assert!(!pattern.is_match("a fo b"));
    assert_eq!(pattern.locate("a Foo b fOO"), ranges(&[(2, 5), (8, 11)]));
    let exact = literal("FOO", false);
    assert!(!exact.is_match("a foo b"));
    assert!(exact.is_match("a FOO b"));
}

#[test]
fn ignoring_case_equals_matching_the_lower_cased_texts() {
    let lines = ["Hello World", "HELLO", "hello", "h\u{c9}llo", "", "x", "\u{130}stanbul"];
    let patterns = ["hello", "HELLO", "World", "\u{e9}L", "", "X", "\u{130}"];
    for kind in [PatternKind::Literal, PatternKind::Regex] {
        for line in lines {
            for text in patterns {
                let folding = PatternSpec::new(kind, text, true);
                let folded = PatternSpec::new(kind, &text.to_lowercase(), false);
                match (folding, folded) {
                    (Ok(folding), Ok(folded)) => {
                        let lowered = line.to_lowercase();
                        assert_eq!(folding.is_match(line), folded.is_match(&lowered));
                        assert_eq!(folding.locate(line), folded.locate(&lowered));
                    }
                    _ => panic!("both patterns should compile"),
                }
            }
        }
    }
}

#[test]
fn a_regex_is_lower_cased_as_a_whole_when_case_is_ignored() {
    let pattern = regular("\\D", true);
    assert!(pattern.is_match("5"));
    assert!(!pattern.is_match("x"));
    let pattern = regular("[A-Z]+", true);
    assert_eq!(pattern.locate("ABC def"), ranges(&[(0, 3), (4, 7)]));
}

#[test]
fn ranges_of_a_folded_line_are_offsets_into_the_folded_line() {
    let pattern = literal("x", true);
    let line = "\u{130}X";
    assert_eq!(line.len(), 3);
    assert_eq!(line.to_lowercase().len(), 4);
    assert_eq!(pattern.locate(line), ranges(&[(3, 4)]));
}

#[test]
fn a_prepared_line_is_searched_as_it_stands() {
    let pattern = literal("FOO", true);
    assert!(pattern.is_match_prepared("a foo b"));
    assert!(!pattern.is_match_prepared("a FOO b"));
    assert_eq!(pattern.locate_prepared("a foo b"), ranges(&[(2, 5)]));
    assert_eq!(pattern.locate_prepared("a FOO b"), ranges(&[]));
}

#[test]
fn matching_and_locating_agree() {
    let lines = ["", "foo", "a foo b foo", "bar", "fo"];
    for pattern in [literal("foo", false), regular("fo+", false), literal("", false)] {
        for line in lines {
            assert_eq!(pattern.is_match(line), !pattern.locate(line).is_empty());
        }
    }
}

#[test]
fn the_diagnostic_names_the_refused_pattern() {
    let error = MatchError::InvalidPattern { pattern: "(a".to_string() };
    assert_eq!(error.message(), "Pattern is not a valid regex:  (a");
    let error = MatchError::InvalidPattern { pattern: String::new() };
    assert_eq!(error.message(), "Pattern is not a valid regex:  ");
}
