use fs_scaffold::path::{chars_of, is_safe_relative_path, join_path, parent_path};

#[test]
fn chars_of_keeps_every_character_in_order() {
    assert_eq!(chars_of("a/é"), vec!['a', '/', 'é']);
    assert_eq!(chars_of(""), Vec::<char>::new());
}

#[test]
fn plain_relative_paths_are_safe() {
    assert!(is_safe_relative_path("a"));
    assert!(is_safe_relative_path("src/lib"));
    assert!(is_safe_relative_path("src/lib/"));
    assert!(is_safe_relative_path("./a"));
    assert!(is_safe_relative_path("."));
}

#[test]
fn empty_path_is_not_safe() {
    assert!(!is_safe_relative_path(""));
}

#[test]
fn absolute_path_is_not_safe() {
    assert!(!is_safe_relative_path("/"));
    assert!(!is_safe_relative_path("/etc/passwd"));
}

#[test]
fn parent_segment_is_not_safe_wherever_it_stands() {
    assert!(!is_safe_relative_path(".."));
    assert!(!is_safe_relative_path("../escape"));
    assert!(!is_safe_relative_path("a/.."));
    assert!(!is_safe_relative_path("a/../b"));
    assert!(!is_safe_relative_path("a/b/../../.."));
}

#[test]
fn dots_inside_a_segment_are_safe() {
    assert!(is_safe_relative_path("..a"));
    assert!(is_safe_relative_path("a.."));
    assert!(is_safe_relative_path("a/..b"));
    assert!(is_safe_relative_path("a../b"));
    assert!(is_safe_relative_path("..."));
    assert!(is_safe_relative_path("a/.../b"));
    assert!(is_safe_relative_path("a..b"));
}

#[test]
fn join_puts_one_separator_between() {
    assert_eq!(join_path("/tmp/proj", "src"), "/tmp/proj/src");
    assert_eq!(join_path("/tmp/proj", "src/lib"), "/tmp/proj/src/lib");
}

#[test]
fn join_adds_no_separator_after_one() {
    assert_eq!(join_path("/tmp/proj/", "src"), "/tmp/proj/src");
    assert_eq!(join_path("/", "src"), "/src");
}

#[test]
fn join_to_empty_base_is_the_relative_path() {
    assert_eq!(join_path("", "src"), "src");
}

#[test]
fn join_is_associative_on_values() {
    let left = join_path(&join_path("/r", "a/b"), "c");
    let right = join_path("/r", &join_path("a/b", "c"));
    assert_eq!(left, "/r/a/b/c");
    assert_eq!(left, right);
}

#[test]
fn parent_of_single_segment_is_the_base() {
    assert_eq!(parent_path("/tmp/proj", "main.txt"), "/tmp/proj");
    assert_eq!(parent_path("", "main.txt"), "");
}

#[test]
fn parent_of_nested_path_is_joined_prefix() {
    assert_eq!(parent_path("/tmp/proj", "src/main.txt"), "/tmp/proj/src");
    assert_eq!(parent_path("/tmp/proj/", "a/b/c.txt"), "/tmp/proj/a/b");
    assert_eq!(parent_path("/tmp/proj", "a/"), "/tmp/proj/a");
}

#[test]
fn parent_keeps_non_ascii_segments() {
    assert_eq!(parent_path("/r", "dé/f.txt"), "/r/dé");
}
