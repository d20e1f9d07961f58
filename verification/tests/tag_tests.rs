use scaf::tag::{options_in_file, strip_tags};

fn option_set(path: &str) -> Vec<String> {
    let mut v = options_in_file(path);
    v.sort();
    v
}

#[test]
fn untagged_path_has_no_options() {
    assert!(options_in_file("src/a.txt").is_empty());
    assert!(options_in_file("plain").is_empty());
}

#[test]
fn untagged_path_is_unchanged_by_stripping() {
    assert_eq!(strip_tags("src/a.txt"), "src/a.txt");
    assert_eq!(strip_tags("plain"), "plain");
}

#[test]
fn duplicate_tokens_collapse() {
    assert_eq!(option_set("b{a,b,a}.txt"), vec!["a".to_string(), "b".to_string()]);
}

#[test]
fn single_tag_is_parsed() {
    assert_eq!(option_set("config{docker}.yaml"), vec!["docker".to_string()]);
}

#[test]
fn tokens_keep_internal_whitespace() {
    assert_eq!(option_set("x{a, b}.txt"), vec![" b".to_string(), "a".to_string()]);
}

#[test]
fn empty_group_names_no_options() {
    assert!(options_in_file("x{}.txt").is_empty());
    assert_eq!(strip_tags("x{}.txt"), "x.txt");
}

#[test]
fn stripping_removes_group_and_braces() {
    assert_eq!(strip_tags("config{a,b}.yaml"), "config.yaml");
    assert_eq!(strip_tags("dir/b{x}.txt"), "dir/b.txt");
}

#[test]
fn stripping_is_idempotent_on_stripped_paths() {
    let once = strip_tags("dir/b{x}.txt");
    let twice = strip_tags(once.as_str());
    assert_eq!(once, twice);
    assert_eq!(twice, "dir/b.txt");
}

#[test]
fn unclosed_brace_is_no_group() {
    assert!(options_in_file("x{a.txt").is_empty());
    assert_eq!(strip_tags("x{a.txt"), "x{a.txt");
}
