use scaf::errors::ScafError;
use scaf::pipeline::{plan_run, validate_output, OutputDirState};
use scaf::record::build_records;

fn discovered(v: &[(&str, &str)]) -> Vec<(String, String)> {
    v.iter().map(|(p, c)| (p.to_string(), c.to_string())).collect()
}

fn strings(v: &[&str]) -> Vec<String> {
    v.iter().map(|s| s.to_string()).collect()
}

#[test]
fn build_records_parses_and_strips_tags() {
    let records = build_records(discovered(&[("t/a.txt", "A"), ("t/b{x}.txt", "BX")]));
    assert_eq!(records.len(), 2);
    assert_eq!(records[0].path, "t/a.txt");
    assert!(records[0].depends_on.is_empty());
    assert_eq!(records[1].path, "t/b.txt");
    assert_eq!(records[1].depends_on, vec!["x".to_string()]);
    assert_eq!(records[1].contents, "BX");
}

#[test]
fn run_copies_matching_variant_and_unconditional_file() {
    let records = build_records(discovered(&[
        ("t/a.txt", "A"),
        ("t/b{x}.txt", "BX"),
        ("t/b{y}.txt", "BY"),
    ]));
    let plan = plan_run(&records, &strings(&["x"]), "t", "out", &OutputDirState::Missing).unwrap();
    assert!(plan.create_output_dir);
    let mut named: Vec<(&str, &str)> =
        plan.files.iter().map(|f| (f.path.as_str(), f.contents.as_str())).collect();
    named.sort();
    assert_eq!(named, vec![("out/a.txt", "A"), ("out/b.txt", "BX")]);
}

#[test]
fn run_prefers_higher_specificity_variant() {
    let records = build_records(discovered(&[("t/c{x}.txt", "CX"), ("t/c{x,y}.txt", "CXY")]));
    let plan = plan_run(
        &records,
        &strings(&["x", "y"]),
        "t",
        "out",
        &OutputDirState::Present { entries: 0 },
    )
    .unwrap();
    assert!(!plan.create_output_dir);
    assert_eq!(plan.files.len(), 1);
    assert_eq!(plan.files[0].path, "out/c.txt");
    assert_eq!(plan.files[0].contents, "CXY");
}

#[test]
fn run_stops_on_prepopulated_output_directory() {
    let records = build_records(discovered(&[("t/a.txt", "A")]));
    let err = plan_run(
        &records,
        &strings(&[]),
        "t",
        "out",
        &OutputDirState::Present { entries: 1 },
    )
    .unwrap_err();
    assert!(matches!(err, ScafError::OutputNotEmpty));
}

#[test]
fn validate_output_judges_the_three_states() {
    assert!(validate_output(&OutputDirState::Missing).unwrap());
    assert!(!validate_output(&OutputDirState::Present { entries: 0 }).unwrap());
    let err = validate_output(&OutputDirState::Present { entries: 3 }).unwrap_err();
    assert!(matches!(err, ScafError::OutputNotEmpty));
}

#[test]
fn run_reports_foreign_path_before_output_state() {
    let records = build_records(discovered(&[("u/a.txt", "A")]));
    let err = plan_run(
        &records,
        &strings(&[]),
        "t",
        "out",
        &OutputDirState::Present { entries: 1 },
    )
    .unwrap_err();
    match err {
        ScafError::PathError { path } => assert_eq!(path, "u/a.txt"),
        _ => panic!("expected a path error"),
    }
}

#[test]
fn run_reports_ambiguity_before_output_state() {
    let records = build_records(discovered(&[("t/c{x}.txt", "ONE"), ("t/c{y}.txt", "TWO")]));
    let err = plan_run(
        &records,
        &strings(&["x", "y"]),
        "t",
        "out",
        &OutputDirState::Present { entries: 1 },
    )
    .unwrap_err();
    match err {
        ScafError::AmbiguousConflict { path } => assert_eq!(path, "t/c.txt"),
        _ => panic!("expected an ambiguous conflict"),
    }
}
