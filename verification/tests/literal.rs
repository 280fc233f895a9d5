use mygrep::literal::{literal_contains, literal_locate};
use mygrep::range::MatchRange;

fn ranges(pairs: &[(usize, usize)]) -> Vec<MatchRange> {
    pairs.iter().map(|&(start, end)| MatchRange { start, end }).collect()
}

#[test]
fn overlapping_occurrences_are_counted_once() {
    assert_eq!(literal_locate("aaa", "aa"), ranges(&[(0, 2)]));
    assert_eq!(literal_locate("aaaa", "aa"), ranges(&[(0, 2), (2, 4)]));
    assert_eq!(literal_locate("aaaaa", "aa"), ranges(&[(0, 2), (2, 4)]));
}

#[test]
fn every_occurrence_is_located_left_to_right() {
    assert_eq!(literal_locate("bar foo baz foo", "foo"), ranges(&[(4, 7), (12, 15)]));
    assert_eq!(literal_locate("foo", "foo"), ranges(&[(0, 3)]));
    assert_eq!(literal_locate("foofoo", "foo"), ranges(&[(0, 3), (3, 6)]));
}

#[test]
fn nothing_is_located_where_the_pattern_is_absent() {
    assert_eq!(literal_locate("qux", "foo"), ranges(&[]));
    assert_eq!(literal_locate("fo", "foo"), ranges(&[]));
    assert_eq!(literal_locate("", "foo"), ranges(&[]));
}

#[test]
fn located_ranges_spell_the_pattern() {
    let line = "abcabcabxabc";
    let pattern = "abc";
    let found = literal_locate(line, pattern);
    assert_eq!(found.len(), 3);
    let mut previous_end = 0;
    for range in &found {
        assert!(previous_end <= range.start);
        assert!(range.start <= range.end);
        assert_eq!(&line[range.start..range.end], pattern);
        previous_end = range.end;
    }
}

#[test]
fn the_empty_pattern_stands_between_all_characters() {
    assert_eq!(literal_locate("abc", ""), ranges(&[(0, 0), (1, 1), (2, 2), (3, 3)]));
    assert_eq!(literal_locate("", ""), ranges(&[(0, 0)]));
    assert_eq!(literal_locate("\u{e9}a", ""), ranges(&[(0, 0), (2, 2), (3, 3)]));
}

#[test]
fn located_ranges_agree_with_the_standard_library() {
    let cases = [
        ("aaa", "aa"),
        ("hello world", "o"),
        ("na\u{ef}ve caf\u{e9} na\u{ef}ve", "na\u{ef}ve"),
        ("\u{65e5}\u{672c}\u{8a9e}\u{65e5}\u{672c}", "\u{65e5}\u{672c}"),
        ("abc", ""),
        ("", ""),
        ("", "x"),
        ("xyz", "xyzw"),
    ];
    for (line, pattern) in cases {
        let expected: Vec<MatchRange> = line
            .match_indices(pattern)
            .map(|(start, found)| MatchRange { start, end: start + found.len() })
            .collect();
        assert_eq!(literal_locate(line, pattern), expected);
        assert_eq!(literal_contains(line, pattern), line.contains(pattern));
    }
}

#[test]
fn containment_is_substring_containment() {
    assert!(literal_contains("bar foo baz", "foo"));
    assert!(literal_contains("foo", "foo"));
    assert!(literal_contains("foo", ""));
    assert!(literal_contains("", ""));
    assert!(!literal_contains("", "f"));
    assert!(!literal_contains("fo", "foo"));
    assert!(!literal_contains("Foo", "foo"));
}

#[test]
fn multibyte_text_is_matched_on_character_boundaries() {
    let line = "caf\u{e9} au lait, caf\u{e9} noir";
    assert_eq!(literal_locate(line, "caf\u{e9}"), ranges(&[(0, 5), (15, 20)]));
    assert_eq!(literal_locate(line, "\u{e9}"), ranges(&[(3, 5), (18, 20)]));
}
