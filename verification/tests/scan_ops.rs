use pathquery::get_list_file_names;
use pathquery::get_table_file_names;
use pathquery::list_by_suffix;
use pathquery::scan::suffix_pattern;

#[test]
fn pattern_is_dir_star_dot_suffix() {
    assert_eq!(suffix_pattern("/a/b", "list"), "/a/b/*.list");
    assert_eq!(suffix_pattern("", "table"), "/*.table");
}

#[test]
fn scan_returns_exactly_the_matching_files() {
    let dir = tempfile::tempdir().unwrap();
    let root = dir.path().to_str().unwrap().to_string();
    fs_err::write(dir.path().join("x.list"), b"").unwrap();
    fs_err::write(dir.path().join("y.list"), b"").unwrap();
    fs_err::write(dir.path().join("z.table"), b"").unwrap();

    let mut lists = get_list_file_names(&root);
    lists.sort();
    let expected = vec![format!("{}/x.list", root), format!("{}/y.list", root)];
    assert_eq!(lists, expected);

    let tables = get_table_file_names(&root);
    assert_eq!(tables, vec![format!("{}/z.table", root)]);
}

#[test]
fn scan_of_missing_directory_is_empty() {
    let found = list_by_suffix("/does/not/exist", "list");
    assert!(found.is_empty());
    assert!(get_list_file_names("/does/not/exist").is_empty());
    assert!(get_table_file_names("/does/not/exist").is_empty());
}

#[test]
fn scan_with_malformed_pattern_is_empty() {
    // An unclosed bracket does not parse as a glob pattern; the scan
    // absorbs the error and reports nothing.
    let found = list_by_suffix("/does/not/exist/[", "list");
    assert!(found.is_empty());
}

#[test]
fn scan_is_idempotent_on_an_unchanged_directory() {
    let dir = tempfile::tempdir().unwrap();
    let root = dir.path().to_str().unwrap().to_string();
    fs_err::write(dir.path().join("x.list"), b"").unwrap();

    let first = get_list_file_names(&root);
    let second = get_list_file_names(&root);
    assert_eq!(first, second);
    assert_eq!(first, vec![format!("{}/x.list", root)]);
}
