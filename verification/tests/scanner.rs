use scan_pool::scanner::{
    distinct_names, Scan, ScanFailure, ScanOutcome, ScanResult, DEFAULT_TIMEOUT,
};
use std::path::PathBuf;

fn ids(names: &[&str]) -> Vec<String> {
    names.iter().map(|name| name.to_string()).collect()
}

fn matched(outcome: &ScanOutcome) -> Vec<String> {
    match outcome {
        ScanOutcome::Matched(found) => found.clone(),
        other => panic!("expected a match, got {:?}", other),
    }
}

#[test]
fn request_gets_the_default_timeout() {
    let scan = Scan::new(PathBuf::from("dir/a.bin"));
    assert_eq!(scan.file, PathBuf::from("dir/a.bin"));
    assert_eq!(scan.timeout, 60);
    assert_eq!(DEFAULT_TIMEOUT, 60);
}

#[test]
fn no_identifier_is_a_clean_file() {
    let outcome = ScanOutcome::from_report(Ok(Vec::new()));
    assert!(matches!(outcome, ScanOutcome::Clean));
    assert!(!outcome.is_matched());
}

#[test]
fn one_identifier_is_a_match_on_it() {
    let outcome = ScanOutcome::from_report(Ok(ids(&["R1"])));
    assert!(outcome.is_matched());
    assert_eq!(matched(&outcome), ids(&["R1"]));
}

#[test]
fn several_identifiers_are_kept_in_order() {
    let outcome = ScanOutcome::from_report(Ok(ids(&["zeta", "alpha", "mid"])));
    assert_eq!(matched(&outcome), ids(&["zeta", "alpha", "mid"]));
}

#[test]
fn repeated_identifiers_are_reported_once() {
    let outcome = ScanOutcome::from_report(Ok(ids(&["a", "b", "a", "c", "b", "a"])));
    assert_eq!(matched(&outcome), ids(&["a", "b", "c"]));
}

#[test]
fn only_repetitions_still_match() {
    let outcome = ScanOutcome::from_report(Ok(ids(&["R1", "R1", "R1"])));
    assert_eq!(matched(&outcome), ids(&["R1"]));
}

#[test]
fn distinct_names_of_nothing_is_nothing() {
    assert_eq!(distinct_names(&Vec::new()), Vec::<String>::new());
}

#[test]
fn distinct_names_keeps_first_occurrences() {
    assert_eq!(distinct_names(&ids(&["x", "y", "x", "", "y", ""])), ids(&["x", "y", ""]));
}

#[test]
fn distinct_names_tells_case_apart() {
    assert_eq!(distinct_names(&ids(&["Rule", "rule", "RULE"])), ids(&["Rule", "rule", "RULE"]));
}

#[test]
fn a_timeout_is_a_failure_not_a_match() {
    let outcome = ScanOutcome::from_report(Err(ScanFailure::Timeout));
    assert!(matches!(outcome, ScanOutcome::Failed(ScanFailure::Timeout)));
    assert!(!outcome.is_matched());
}

#[test]
fn every_failure_keeps_its_kind() {
    assert!(matches!(
        ScanOutcome::from_report(Err(ScanFailure::Unreadable)),
        ScanOutcome::Failed(ScanFailure::Unreadable)
    ));
    assert!(matches!(
        ScanOutcome::from_report(Err(ScanFailure::Malformed)),
        ScanOutcome::Failed(ScanFailure::Malformed)
    ));
    assert!(matches!(
        ScanOutcome::from_report(Err(ScanFailure::Internal)),
        ScanOutcome::Failed(ScanFailure::Internal)
    ));
}

#[test]
fn same_report_gives_same_outcome() {
    let first = ScanOutcome::from_report(Ok(ids(&["R2", "R1", "R2"])));
    let second = ScanOutcome::from_report(Ok(ids(&["R2", "R1", "R2"])));
    assert_eq!(matched(&first), matched(&second));
    assert_eq!(matched(&first), ids(&["R2", "R1"]));
}

#[test]
fn result_carries_the_file_of_the_request() {
    let request = Scan { file: PathBuf::from("/tmp/sample"), timeout: 5 };
    let result = ScanResult::new(request, Ok(ids(&["R1"])));
    assert_eq!(result.file, PathBuf::from("/tmp/sample"));
    assert_eq!(matched(&result.outcome), ids(&["R1"]));
}

#[test]
fn result_of_a_failed_scan_is_data() {
    let result = ScanResult::new(Scan::new(PathBuf::from("gone")), Err(ScanFailure::Unreadable));
    assert_eq!(result.file, PathBuf::from("gone"));
    assert!(matches!(result.outcome, ScanOutcome::Failed(ScanFailure::Unreadable)));
}
