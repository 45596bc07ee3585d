use timelog::processor::{process_lines, LineProcessor};
use timelog::record::ParserError;

fn lines(v: &[&str]) -> Vec<String> {
    v.iter().map(|s| s.to_string()).collect()
}

#[test]
fn example_run() {
    let input = lines(&[
        "alice 2024-01-01 09:00 2024-01-01 17:00",
        "alice 2024-01-01 09:00 2024-01-01 17:00",
        "bob 2024-01-02 08:00 2024-01-02 08:00",
        "carol 2024-01-03 10:00 2024-01-03 11:00",
    ]);
    let (outputs, count) = process_lines(&input).unwrap();
    // Lines 1 (alice), 3 (bob, trivial) and 4 (carol) are counted: the
    // count tracks parsed lines, not emitted ones.
    assert_eq!(count, 4);
    assert_eq!(
        outputs,
        lines(&[
            "고에너지물리계산 박찬범 alice IBS CTPU 2024-01-01 09:00 2024-01-01 17:00",
            "고에너지물리계산 박찬범 carol IBS CTPU 2024-01-03 10:00 2024-01-03 11:00",
        ])
    );
}

#[test]
fn empty_input_counts_one() {
    let (outputs, count) = process_lines(&Vec::new()).unwrap();
    assert!(outputs.is_empty());
    assert_eq!(count, 1);
}

#[test]
fn duplicate_line_skipped() {
    let mut p = LineProcessor::new();
    let line = "alice 2024-01-01 09:00 2024-01-01 17:00".to_string();
    let first = p.process_line(&line).unwrap();
    assert!(first.is_some());
    assert_eq!(p.counter, 2);
    let second = p.process_line(&line).unwrap();
    assert!(second.is_none());
    assert_eq!(p.counter, 2);
}

#[test]
fn trivial_line_counted_but_not_emitted() {
    let mut p = LineProcessor::new();
    let line = "bob 2024-01-02 08:00 2024-01-02 08:00".to_string();
    let out = p.process_line(&line).unwrap();
    assert!(out.is_none());
    assert_eq!(p.counter, 2);
}

#[test]
fn emitted_line_has_fixed_format() {
    let mut p = LineProcessor::new();
    let line = "dana 2024-02-10 07:30 2024-02-11 06:15".to_string();
    let out = p.process_line(&line).unwrap().unwrap();
    assert_eq!(
        out,
        "고에너지물리계산 박찬범 dana IBS CTPU 2024-02-10 07:30 2024-02-11 06:15"
    );
}

#[test]
fn trailing_tokens_ignored() {
    let mut p = LineProcessor::new();
    let line = "erin 2024-03-01 09:00 2024-03-01 10:00 extra junk".to_string();
    let out = p.process_line(&line).unwrap().unwrap();
    assert_eq!(
        out,
        "고에너지물리계산 박찬범 erin IBS CTPU 2024-03-01 09:00 2024-03-01 10:00"
    );
    assert_eq!(p.counter, 2);
}

fn missing_field_of(input: &[&str]) -> String {
    match process_lines(&lines(input)) {
        Err(ParserError::MissingEntry(f)) => f,
        Err(ParserError::ConversionError(t)) => panic!("unexpected conversion failure: {}", t),
        Ok(_) => panic!("run was expected to abort"),
    }
}

#[test]
fn short_line_aborts_naming_first_missing_field() {
    assert_eq!(missing_field_of(&[" "]), "name");
    assert_eq!(missing_field_of(&["frank"]), "date_init");
    assert_eq!(missing_field_of(&["frank 2024-04-01"]), "time_init");
    assert_eq!(missing_field_of(&["frank 2024-04-01 09:00"]), "date_fin");
    assert_eq!(
        missing_field_of(&["frank 2024-04-01 09:00 2024-04-02"]),
        "time_fin"
    );
}

#[test]
fn abort_keeps_no_later_lines() {
    let input = lines(&[
        "gail 2024-05-01 09:00 2024-05-01 10:00",
        "bad line",
        "hank 2024-05-02 09:00 2024-05-02 10:00",
    ]);
    match process_lines(&input) {
        Err(ParserError::MissingEntry(f)) => assert_eq!(f, "time_init"),
        _ => panic!("run was expected to abort on the malformed line"),
    }
}

#[test]
fn count_ignores_triviality_filter() {
    let input = lines(&[
        "ivy 2024-06-01 09:00 2024-06-01 09:00",
        "ivy 2024-06-01 09:00 2024-06-01 09:00",
        "jack 2024-06-02 09:00 2024-06-02 09:00",
        "kate 2024-06-03 09:00 2024-06-03 10:00",
    ]);
    let (outputs, count) = process_lines(&input).unwrap();
    assert_eq!(outputs.len(), 1);
    assert_eq!(count, 1 + 3);
}

#[test]
fn processing_twice_gives_identical_output() {
    let input = lines(&[
        "lena 2024-07-01 09:00 2024-07-01 17:00",
        "lena 2024-07-01 09:00 2024-07-01 17:00",
        "mike 2024-07-02 08:00 2024-07-02 08:00",
        "nora 2024-07-03 10:00 2024-07-03 11:00",
    ]);
    let (out1, count1) = process_lines(&input).unwrap();
    let (out2, count2) = process_lines(&input).unwrap();
    assert_eq!(out1, out2);
    assert_eq!(count1, count2);
}

#[test]
fn leading_empty_line_matches_initial_tracker() {
    let input = lines(&["", "olga 2024-08-01 09:00 2024-08-01 10:00"]);
    let (outputs, count) = process_lines(&input).unwrap();
    assert_eq!(outputs.len(), 1);
    assert_eq!(count, 2);
}

#[test]
fn repeated_duplicates_compare_against_original() {
    let a = "pete 2024-09-01 09:00 2024-09-01 10:00";
    let input = lines(&[a, a, a]);
    let (outputs, count) = process_lines(&input).unwrap();
    assert_eq!(outputs.len(), 1);
    assert_eq!(count, 2);
}

#[test]
fn alternating_lines_are_not_duplicates() {
    let a = "quin 2024-10-01 09:00 2024-10-01 10:00";
    let b = "rosa 2024-10-02 09:00 2024-10-02 10:00";
    let input = lines(&[a, b, a]);
    let (outputs, count) = process_lines(&input).unwrap();
    assert_eq!(outputs.len(), 3);
    assert_eq!(count, 4);
}

#[test]
fn fresh_processor_state() {
    let p = LineProcessor::new();
    assert_eq!(p.counter, 1);
    assert_eq!(p.prev_line, "");
}
