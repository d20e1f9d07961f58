use scaf::errors::ScafError;
use scaf::filter::filter_records;
use scaf::record::FileRecord;
use scaf::resolve::{dedupe_files, resolve_conflicts};

fn rec(path: &str, contents: &str, deps: &[&str]) -> FileRecord {
    FileRecord {
        path: path.to_string(),
        contents: contents.to_string(),
        depends_on: deps.iter().map(|s| s.to_string()).collect(),
    }
}

fn strings(v: &[&str]) -> Vec<String> {
    v.iter().map(|s| s.to_string()).collect()
}

#[test]
fn unconditional_record_always_survives() {
    let files = vec![rec("a.txt", "A", &[])];
    let kept = filter_records(&files, &strings(&[]));
    assert_eq!(kept.len(), 1);
    assert_eq!(kept[0].path, "a.txt");
}

#[test]
fn empty_choice_keeps_only_unconditional_records() {
    let files = vec![rec("a.txt", "A", &[]), rec("b.txt", "B", &["x"])];
    let kept = filter_records(&files, &strings(&[]));
    assert_eq!(kept.len(), 1);
    assert_eq!(kept[0].path, "a.txt");
}

#[test]
fn record_survives_iff_dependencies_are_subset() {
    let files = vec![
        rec("a.txt", "A", &["x"]),
        rec("b.txt", "B", &["x", "y"]),
        rec("c.txt", "C", &["z"]),
    ];
    let kept = filter_records(&files, &strings(&["x", "y"]));
    let paths: Vec<&str> = kept.iter().map(|f| f.path.as_str()).collect();
    assert_eq!(paths, vec!["a.txt", "b.txt"]);
}

#[test]
fn more_specific_record_wins() {
    let files = vec![rec("c.txt", "ONE", &["x"]), rec("c.txt", "TWO", &["x", "y"])];
    let out = resolve_conflicts(&files).unwrap();
    assert_eq!(out.len(), 1);
    assert_eq!(out[0].contents, "TWO");
    assert_eq!(out[0].depends_on.len(), 2);
}

#[test]
fn equal_specificity_is_ambiguous() {
    let files = vec![
        rec("c.txt", "ONE", &["x", "y"]),
        rec("c.txt", "TWO", &["y", "z"]),
    ];
    let err = resolve_conflicts(&files).unwrap_err();
    match err {
        ScafError::AmbiguousConflict { path } => assert_eq!(path, "c.txt"),
        _ => panic!("expected an ambiguous conflict"),
    }
}

#[test]
fn lone_record_is_kept_unchanged() {
    let files = vec![rec("a.txt", "A", &["x"]), rec("b.txt", "B", &[])];
    let out = resolve_conflicts(&files).unwrap();
    let paths: Vec<&str> = out.iter().map(|f| f.path.as_str()).collect();
    assert_eq!(paths, vec!["a.txt", "b.txt"]);
}

#[test]
fn dedupe_filters_before_resolving() {
    let files = vec![
        rec("c.txt", "ONE", &["x"]),
        rec("c.txt", "TWO", &["x", "y"]),
        rec("d.txt", "D", &["z"]),
    ];
    let out = dedupe_files(&files, &strings(&["x", "y"])).unwrap();
    assert_eq!(out.len(), 1);
    assert_eq!(out[0].path, "c.txt");
    assert_eq!(out[0].contents, "TWO");
}

#[test]
fn dedupe_reports_ambiguity_among_survivors() {
    let files = vec![
        rec("c.txt", "ONE", &["x", "y"]),
        rec("c.txt", "TWO", &["x", "z"]),
    ];
    let err = dedupe_files(&files, &strings(&["x", "y", "z"])).unwrap_err();
    assert!(matches!(err, ScafError::AmbiguousConflict { .. }));
}
