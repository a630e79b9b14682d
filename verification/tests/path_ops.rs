use pathquery::get_dir;
use pathquery::get_file_name_from_path;
use pathquery::join_path;

#[test]
fn parent_of_nested_path() {
    assert_eq!(get_dir("/a/b"), "/a");
}

#[test]
fn parent_of_single_component_is_empty() {
    assert_eq!(get_dir("a"), "");
}

#[test]
fn parent_of_root_is_empty() {
    assert_eq!(get_dir("/"), "");
    assert_eq!(get_dir("///"), "");
}

#[test]
fn parent_of_empty_is_empty() {
    assert_eq!(get_dir(""), "");
}

#[test]
fn parent_under_root_is_root() {
    assert_eq!(get_dir("/a"), "/");
}

#[test]
fn parent_ignores_trailing_separators() {
    assert_eq!(get_dir("/a/b//"), "/a");
    assert_eq!(get_dir("a/b/"), "a");
    assert_eq!(get_dir("a//b"), "a");
}

#[test]
fn parent_chain_reaches_empty() {
    let mut p = String::from("/a/b/c.table");
    let mut steps = 0;
    while !p.is_empty() {
        let q = get_dir(&p);
        assert!(q.len() < p.len());
        p = q;
        steps += 1;
    }
    assert_eq!(p, "");
    assert!(steps <= 12);
}

#[test]
fn join_inserts_separator() {
    assert_eq!(join_path("/a/b", "c.list"), "/a/b/c.list");
}

#[test]
fn join_keeps_existing_separator() {
    assert_eq!(join_path("a/", "b"), "a/b");
}

#[test]
fn join_onto_empty_base() {
    assert_eq!(join_path("", "c"), "c");
}

#[test]
fn join_absolute_leaf_replaces_base() {
    assert_eq!(join_path("/a/b", "/etc"), "/etc");
}

#[test]
fn join_empty_leaf_keeps_trailing_separator() {
    assert_eq!(join_path("a", ""), "a/");
}

#[test]
fn basename_of_nested_path() {
    assert_eq!(get_file_name_from_path("/a/b/c.table"), "c.table");
}

#[test]
fn basename_of_empty_is_empty() {
    assert_eq!(get_file_name_from_path(""), "");
}

#[test]
fn basename_of_root_is_empty() {
    assert_eq!(get_file_name_from_path("/"), "");
}

#[test]
fn basename_ignores_trailing_separators() {
    assert_eq!(get_file_name_from_path("a/b/"), "b");
}

#[test]
fn basename_of_dot_components_is_empty() {
    assert_eq!(get_file_name_from_path("."), "");
    assert_eq!(get_file_name_from_path(".."), "");
    assert_eq!(get_file_name_from_path("a/.."), "");
}

#[test]
fn trailing_dot_components_are_skipped() {
    assert_eq!(get_file_name_from_path("foo.txt/."), "foo.txt");
    assert_eq!(get_file_name_from_path("a/././"), "a");
    assert_eq!(get_dir("a/."), "");
    assert_eq!(get_dir("/a/."), "/");
}

#[test]
fn parent_keeps_a_doubled_root() {
    assert_eq!(get_dir("//a"), "//");
}

#[test]
fn basename_of_joined_leaf_is_leaf() {
    assert_eq!(get_file_name_from_path(&join_path("/a/b", "c.list")), "c.list");
    assert_eq!(get_file_name_from_path(&join_path("", "c.list")), "c.list");
    assert_eq!(get_file_name_from_path(&join_path("d/", "c.list")), "c.list");
}

#[test]
fn operations_are_idempotent_across_calls() {
    assert_eq!(get_dir("/a/b"), get_dir("/a/b"));
    assert_eq!(join_path("/a", "b"), join_path("/a", "b"));
    assert_eq!(
        get_file_name_from_path("/a/b/c.table"),
        get_file_name_from_path("/a/b/c.table")
    );
}
