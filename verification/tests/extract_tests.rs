use dropper::extract::{extract, ExtractionError};
use dropper::version::VersionTuple;

fn vt(major: u32, minor: u32, patch: Option<u32>, build: Option<u32>) -> VersionTuple {
    VersionTuple { major, minor, patch, build }
}

fn labels(items: &[&str]) -> Vec<String> {
    items.iter().map(|s| s.to_string()).collect()
}

#[test]
fn trivial_case_returns_single_runs_unchanged() {
    let ls = labels(&["1.0.0", "1.1.0", "2.0.0"]);
    let out = extract(&ls).unwrap();
    assert_eq!(out, vec![vt(1, 0, Some(0), None), vt(1, 1, Some(0), None), vt(2, 0, Some(0), None)]);
}

#[test]
fn trivial_case_single_label() {
    let ls = labels(&["6.1"]);
    assert_eq!(extract(&ls).unwrap(), vec![vt(6, 1, None, None)]);
}

#[test]
fn empty_input_extracts_to_empty_output() {
    let ls: Vec<String> = Vec::new();
    assert_eq!(extract(&ls).unwrap(), Vec::new());
}

#[test]
fn ambiguous_labels_select_the_varying_column() {
    let ls = labels(&[
        "Plugin 6.1.9 (MC 1.12)",
        "Plugin 6.1.11 (MC 1.12)",
        "Plugin 6.2.0 (MC 1.12)",
    ]);
    let out = extract(&ls).unwrap();
    assert_eq!(out, vec![vt(6, 1, Some(9), None), vt(6, 1, Some(11), None), vt(6, 2, Some(0), None)]);
}

#[test]
fn column_missing_on_some_label_counts_against_it() {
    // The constant column keeps its position 0; the second column, absent on
    // the last label, still scores better only when it varies. Here it does
    // vary, so it wins, and the short label surfaces the inconsistency.
    let ls = labels(&["5.5 1.0", "5.5 2.0", "5.5"]);
    assert_eq!(extract(&ls), Err(ExtractionError::InconsistentColumns));
}

#[test]
fn label_without_numbers_is_unparseable() {
    let ls = labels(&["Shiny release, no version"]);
    assert_eq!(
        extract(&ls),
        Err(ExtractionError::UnparseableLabel("Shiny release, no version".to_string()))
    );
}

#[test]
fn first_unparseable_label_is_reported() {
    let ls = labels(&["ok 1.2", "nope", "also fine 3.4"]);
    assert_eq!(extract(&ls), Err(ExtractionError::UnparseableLabel("nope".to_string())));
}

#[test]
fn single_digit_run_alone_is_not_a_version() {
    let ls = labels(&["build 7"]);
    assert_eq!(extract(&ls), Err(ExtractionError::UnparseableLabel("build 7".to_string())));
}

#[test]
fn group_above_u32_is_unparseable() {
    let ls = labels(&["v 99999999999.1"]);
    assert_eq!(
        extract(&ls),
        Err(ExtractionError::UnparseableLabel("v 99999999999.1".to_string()))
    );
}

#[test]
fn four_field_runs_are_read_whole() {
    let ls = labels(&["WorldEdit 6.1.9.2"]);
    assert_eq!(extract(&ls).unwrap(), vec![vt(6, 1, Some(9), Some(2))]);
}

#[test]
fn run_stops_at_non_numeric_tail() {
    let ls = labels(&["v1.12b3 beta"]);
    assert_eq!(extract(&ls).unwrap(), vec![vt(1, 12, None, None)]);
}

#[test]
fn extract_is_idempotent() {
    let ls = labels(&["Plugin 6.1.9 (MC 1.12)", "Plugin 6.1.11 (MC 1.12)"]);
    let first = extract(&ls);
    let second = extract(&ls);
    assert_eq!(first, second);
}
