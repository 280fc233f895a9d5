use mygrep::accumulator::SectionAccumulator;
use mygrep::record::OutputRecord;

fn lines(texts: &[&str]) -> Vec<String> {
    texts.iter().map(|text| text.to_string()).collect()
}

fn record(index: usize, text: &str) -> OutputRecord {
    OutputRecord { index, text: text.to_string() }
}

#[test]
fn an_empty_accumulator_drains_to_nothing() {
    let input = lines(&["a", "b", "c"]);
    let acc = SectionAccumulator::new(3);
    assert_eq!(acc.drain(&input, false), Vec::<OutputRecord>::new());
}

#[test]
fn slated_lines_leave_in_ascending_order_and_once() {
    let input = lines(&["a", "b", "c", "d", "e"]);
    let mut acc = SectionAccumulator::new(5);
    acc.slate(2, 5);
    acc.slate(0, 3);
    acc.slate(1, 2);
    assert_eq!(
        acc.drain(&input, false),
        vec![record(0, "a"), record(1, "b"), record(2, "c"), record(3, "d"), record(4, "e")]
    );
}

#[test]
fn a_matched_line_leaves_with_its_rendered_text() {
    let input = lines(&["a", "b", "c"]);
    let mut acc = SectionAccumulator::new(3);
    acc.record(1, "[b]".to_string());
    acc.slate(0, 2);
    assert_eq!(acc.drain(&input, false), vec![record(0, "a"), record(1, "[b]")]);
}

#[test]
fn slating_keeps_the_rendered_text_of_a_match() {
    let input = lines(&["a", "b", "c"]);
    let mut acc = SectionAccumulator::new(3);
    acc.record(2, "3: [c]".to_string());
    acc.slate(0, 3);
    acc.slate(2, 3);
    assert_eq!(
        acc.drain(&input, true),
        vec![record(0, "1: a"), record(1, "2: b"), record(2, "3: [c]")]
    );
}

#[test]
fn an_empty_range_slates_nothing() {
    let input = lines(&["a", "b"]);
    let mut acc = SectionAccumulator::new(2);
    acc.slate(1, 1);
    assert_eq!(acc.drain(&input, true), Vec::<OutputRecord>::new());
}

#[test]
fn recording_a_match_slates_its_line() {
    let input = lines(&["a", "b"]);
    let mut acc = SectionAccumulator::new(2);
    acc.record(0, "A".to_string());
    assert_eq!(acc.drain(&input, true), vec![record(0, "A")]);
}
