use epoch_tail::extract::{extract, get_last_epoch, join_tail_lines, ExtractionResult};
use epoch_tail::scan::scan_line;
use epoch_tail::tail::LogTail;

fn lines(v: &[&str]) -> Vec<String> {
    v.iter().map(|s| s.to_string()).collect()
}

#[test]
fn found_epoch_in_newer_line() {
    let r = get_last_epoch(Some(lines(&["hello", "epoch [1700000000] ok"])));
    assert!(matches!(r, ExtractionResult::Found(1700000000)));
}

#[test]
fn no_brackets_not_found() {
    let r = get_last_epoch(Some(lines(&["a", "b", "c"])));
    match r {
        ExtractionResult::NotFound(t) => assert_eq!(t, "a\nb\nc"),
        _ => panic!("expected NotFound"),
    }
}

#[test]
fn evicted_match_not_found() {
    let mut v: Vec<String> = Vec::new();
    for i in 1..=15 {
        if i == 2 {
            v.push(format!("line {} has [123] in it", i));
        } else {
            v.push(format!("line {}", i));
        }
    }
    let expected = (6..=15)
        .map(|i| format!("line {}", i))
        .collect::<Vec<String>>()
        .join("\n");
    let r = get_last_epoch(Some(v));
    match r {
        ExtractionResult::NotFound(t) => assert_eq!(t, expected),
        _ => panic!("expected NotFound after the match was evicted"),
    }
}

#[test]
fn missing_source_unavailable() {
    let r = get_last_epoch(None);
    assert!(matches!(r, ExtractionResult::SourceUnavailable));
    assert!(!matches!(r, ExtractionResult::NotFound(_)));
}

#[test]
fn first_match_within_line_wins() {
    let r = get_last_epoch(Some(lines(&["x [42] y [99] z"])));
    assert!(matches!(r, ExtractionResult::Found(42)));
}

#[test]
fn empty_input_not_found_empty_text() {
    let r = get_last_epoch(Some(Vec::new()));
    match r {
        ExtractionResult::NotFound(t) => assert_eq!(t, ""),
        _ => panic!("expected NotFound on empty input"),
    }
}

#[test]
fn tail_keeps_exactly_last_ten() {
    let mut t = LogTail::with_default_capacity();
    for i in 1..=12 {
        t.push(format!("l{}", i));
    }
    let kept: Vec<String> = t.lines().clone();
    let expected: Vec<String> = (3..=12).map(|i| format!("l{}", i)).collect();
    assert_eq!(kept, expected);
    assert_eq!(t.len(), 10);
}

#[test]
fn tail_below_bound_keeps_all() {
    let mut t = LogTail::new(3);
    t.push("a".to_string());
    t.push("b".to_string());
    assert_eq!(t.lines().clone(), lines(&["a", "b"]));
    t.push("c".to_string());
    t.push("d".to_string());
    assert_eq!(t.lines().clone(), lines(&["b", "c", "d"]));
}

#[test]
fn most_recent_matching_line_wins() {
    let r = get_last_epoch(Some(lines(&["a [1] b", "middle", "c [2] d"])));
    assert!(matches!(r, ExtractionResult::Found(2)));
}

#[test]
fn oversized_number_skips_the_line() {
    let r = get_last_epoch(Some(lines(&[
        "ok [55] here",
        "big [99999999999999999999999] num",
    ])));
    assert!(matches!(r, ExtractionResult::Found(55)));
}

#[test]
fn oversized_number_alone_not_found() {
    let only = "big [99999999999999999999999] num";
    let r = get_last_epoch(Some(lines(&[only])));
    match r {
        ExtractionResult::NotFound(t) => assert_eq!(t, only),
        _ => panic!("expected NotFound when the only number does not fit"),
    }
}

#[test]
fn scan_line_cases() {
    assert_eq!(scan_line("[7]"), Some(7));
    assert_eq!(scan_line("[0]"), Some(0));
    assert_eq!(scan_line("no digits here"), None);
    assert_eq!(scan_line(""), None);
    assert_eq!(scan_line("[]"), None);
    assert_eq!(scan_line("[12x] [34]"), Some(34));
    assert_eq!(scan_line("tail [5]"), Some(5));
    assert_eq!(scan_line("[18446744073709551615]"), Some(u64::MAX));
    assert_eq!(scan_line("[18446744073709551616]"), None);
    assert_eq!(scan_line("über [9] ünïcode"), Some(9));
}

#[test]
fn extract_on_built_tail() {
    let t = LogTail::from_lines(&lines(&["x", "[8]", "y"]), 10);
    assert!(matches!(extract(&t), ExtractionResult::Found(8)));
}

#[test]
fn join_keeps_empty_lines() {
    assert_eq!(join_tail_lines(&lines(&["", ""])), "\n");
    assert_eq!(join_tail_lines(&lines(&["a"])), "a");
    assert_eq!(join_tail_lines(&Vec::new()), "");
}
