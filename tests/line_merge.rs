use hmum::diff3::{diff_lines, merge_lines, Hunk, MARK_BASE, MARK_CURRENT, MARK_END, MARK_LATEST};
use hmum::merge::MergeOutcome;

fn lines(text: &[&str]) -> Vec<String> {
    text.iter().map(|s| s.to_string()).collect()
}

#[test]
fn added_key_and_upstream_change_merge_cleanly() {
    let base = lines(&["a: 1"]);
    let current = lines(&["a: 1", "b: 2"]);
    let latest = lines(&["a: 2"]);
    let merged = merge_lines(&current, &base, &latest);
    assert_eq!(merged.outcome, MergeOutcome::Clean);
    assert_eq!(merged.lines, lines(&["a: 2", "b: 2"]));
}

#[test]
fn both_sides_changing_a_key_conflict() {
    let base = lines(&["a: 1"]);
    let current = lines(&["a: 2"]);
    let latest = lines(&["a: 3"]);
    let merged = merge_lines(&current, &base, &latest);
    assert_eq!(merged.outcome, MergeOutcome::Conflicted);
    assert_eq!(merged.lines, lines(&[MARK_CURRENT, "a: 2", MARK_BASE, "a: 1", MARK_LATEST, "a: 3", MARK_END]));
}

#[test]
fn unchanged_overlay_takes_the_latest_defaults() {
    let base = lines(&["a: 1", "b: 1"]);
    let latest = lines(&["a: 1", "b: 2", "c: 3"]);
    let merged = merge_lines(&base, &base, &latest);
    assert_eq!(merged.outcome, MergeOutcome::Clean);
    assert_eq!(merged.lines, latest);
}

#[test]
fn unchanged_defaults_keep_the_overlay() {
    let base = lines(&["a: 1"]);
    let current = lines(&["a: 5", "z: 0"]);
    let merged = merge_lines(&current, &base, &base);
    assert_eq!(merged.outcome, MergeOutcome::Clean);
    assert_eq!(merged.lines, current);
}

#[test]
fn identical_changes_are_taken_once() {
    let base = lines(&["x", "a: 1", "y", "z"]);
    let current = lines(&["x", "a: 2", "y", "z", "w"]);
    let latest = lines(&["x", "a: 2", "y", "z"]);
    let merged = merge_lines(&current, &base, &latest);
    assert_eq!(merged.outcome, MergeOutcome::Clean);
    assert_eq!(merged.lines, lines(&["x", "a: 2", "y", "z", "w"]));
}

#[test]
fn separate_changes_merge_cleanly() {
    let base = lines(&["a: 1", "b: 1", "c: 1", "d: 1"]);
    let current = lines(&["a: 9", "b: 1", "c: 1", "d: 1"]);
    let latest = lines(&["a: 1", "b: 1", "c: 1", "d: 7"]);
    let merged = merge_lines(&current, &base, &latest);
    assert_eq!(merged.outcome, MergeOutcome::Clean);
    assert_eq!(merged.lines, lines(&["a: 9", "b: 1", "c: 1", "d: 7"]));
}

#[test]
fn diff_of_a_replacement_and_an_insertion() {
    let base = lines(&["a", "b", "c"]);
    let side = lines(&["a", "B", "c", "d"]);
    assert_eq!(
        diff_lines(&base, &side),
        vec![Hunk { start: 1, end: 2, from: 1, to: 2 }, Hunk { start: 3, end: 3, from: 3, to: 4 }]
    );
    assert!(diff_lines(&base, &base).is_empty());
}
