use mahzen::keys::{compute_dest_key, compute_parent_prefix, folder_name, index_key, last_segment};

#[test]
fn dest_key_replaces_source_prefix() {
    assert_eq!(compute_dest_key("a/x", "a/", "a-copy/"), "a-copy/x");
    assert_eq!(compute_dest_key("photos/2024/img.png", "photos/", "backup/photos/"), "backup/photos/2024/img.png");
    assert_eq!(compute_dest_key("f", "", "g/"), "g/f");
}

#[test]
fn dest_key_without_matching_prefix_appends_whole_key() {
    assert_eq!(compute_dest_key("other/x", "a/", "b/"), "b/other/x");
}

#[test]
fn dest_key_with_empty_destination_prefix() {
    assert_eq!(compute_dest_key("a/b/c", "a/", ""), "b/c");
}

#[test]
fn parent_prefix_of_nested_file() {
    assert_eq!(compute_parent_prefix("a/b/c.txt"), "a/b/");
}

#[test]
fn parent_prefix_of_folder_marker() {
    assert_eq!(compute_parent_prefix("a/b/"), "a/");
}

#[test]
fn parent_prefix_of_root_file() {
    assert_eq!(compute_parent_prefix("file.txt"), "");
}

#[test]
fn parent_prefix_edge_cases() {
    assert_eq!(compute_parent_prefix(""), "");
    assert_eq!(compute_parent_prefix("a/"), "");
    assert_eq!(compute_parent_prefix("a//"), "");
    assert_eq!(compute_parent_prefix("a//b"), "a//");
}

#[test]
fn names_of_keys() {
    assert_eq!(last_segment("a/b/c.txt"), "c.txt");
    assert_eq!(last_segment("file.txt"), "file.txt");
    assert_eq!(folder_name("a/b/"), "b");
    assert_eq!(folder_name("top//"), "top");
    assert_eq!(folder_name("/"), "");
}

#[test]
fn index_key_joins_target_and_bucket() {
    assert_eq!(index_key("t1", "bucket"), "t1:bucket");
}

#[test]
fn directory_entries_by_relative_path() {
    let e = |r: &str, n: u64| mahzen::models::DirectoryFileEntry {
        absolute_path: format!("/root/{r}"),
        relative_path: r.to_string(),
        size: n,
    };
    let sorted = mahzen::files::sort_directory_entries(&vec![e("b/x", 1), e("a", 2), e("B", 3), e("a/z", 4)]);
    let paths: Vec<String> = sorted.iter().map(|d| d.relative_path.clone()).collect();
    assert_eq!(paths, vec!["B", "a", "a/z", "b/x"]);
    assert_eq!(sorted[0].size, 3);
    assert_eq!(sorted[0].absolute_path, "/root/B");
}
