use scaf::config::{is_config_path, selected_keys, str_le, Config};
use scaf::errors::ScafError;
use scaf::record::FileRecord;
use scaf::rewrite::{replace_file_paths, rewrite_path};

fn rec(path: &str, contents: &str, deps: &[&str]) -> FileRecord {
    FileRecord {
        path: path.to_string(),
        contents: contents.to_string(),
        depends_on: deps.iter().map(|s| s.to_string()).collect(),
    }
}

fn pairs(v: &[(&str, &str)]) -> Vec<(String, String)> {
    v.iter().map(|(k, l)| (k.to_string(), l.to_string())).collect()
}

#[test]
fn rewrite_reroots_under_output() {
    assert_eq!(rewrite_path("t/a.txt", "t", "out").unwrap(), "out/a.txt");
    assert_eq!(rewrite_path("t/sub/b.txt", "t", "o2").unwrap(), "o2/sub/b.txt");
}

#[test]
fn rewrite_rejects_foreign_prefix() {
    let err = rewrite_path("elsewhere/a.txt", "t/", "out").unwrap_err();
    match err {
        ScafError::PathError { path } => assert_eq!(path, "elsewhere/a.txt"),
        _ => panic!("expected a path error"),
    }
}

#[test]
fn replace_file_paths_reroots_every_record() {
    let mut files = vec![rec("t/a.txt", "A", &[]), rec("t/b.txt", "B", &["x"])];
    replace_file_paths(&mut files, "t", "out").unwrap();
    assert_eq!(files[0].path, "out/a.txt");
    assert_eq!(files[1].path, "out/b.txt");
    assert_eq!(files[0].contents, "A");
    assert_eq!(files[1].depends_on, vec!["x".to_string()]);
}

#[test]
fn replace_file_paths_reports_foreign_prefix_and_changes_nothing() {
    let mut files = vec![rec("t/a.txt", "A", &[]), rec("u/b.txt", "B", &[])];
    let err = replace_file_paths(&mut files, "t/", "out").unwrap_err();
    assert!(matches!(err, ScafError::PathError { .. }));
    assert_eq!(files[0].path, "t/a.txt");
    assert_eq!(files[1].path, "u/b.txt");
}

#[test]
fn get_all_options_lists_identifiers_in_order() {
    let config = Config { options: pairs(&[("b_key", "Beta"), ("a_key", "Alpha")]) };
    assert_eq!(config.get_all_options(), vec!["b_key".to_string(), "a_key".to_string()]);
}

#[test]
fn sorted_by_label_orders_by_label() {
    let config = Config {
        options: pairs(&[("d", "docker support"), ("a", "auth"), ("c", "ci pipeline")]),
    };
    let sorted = config.sorted_by_label();
    let labels: Vec<&str> = sorted.iter().map(|(_, l)| l.as_str()).collect();
    assert_eq!(labels, vec!["auth", "ci pipeline", "docker support"]);
    let keys: Vec<&str> = sorted.iter().map(|(k, _)| k.as_str()).collect();
    assert_eq!(keys, vec!["a", "c", "d"]);
}

#[test]
fn selected_keys_maps_prompt_rows_back_to_identifiers() {
    let sorted = pairs(&[("a", "auth"), ("c", "ci"), ("d", "docker")]);
    let picked = vec![0usize, 2usize];
    assert_eq!(selected_keys(&sorted, &picked), vec!["a".to_string(), "d".to_string()]);
}

#[test]
fn str_le_is_lexicographic() {
    assert!(str_le("abc", "abd"));
    assert!(!str_le("abd", "abc"));
    assert!(str_le("ab", "abc"));
    assert!(str_le("abc", "abc"));
}

#[test]
fn config_file_paths_are_recognised() {
    assert!(is_config_path("t/scaf.toml"));
    assert!(!is_config_path("t/a.txt"));
    assert!(is_config_path("nested/scaf.toml.bak"));
}
