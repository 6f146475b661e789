use mahzen::catalog::{browse, SortDir, SortField};
use mahzen::index_engine::{index_page, index_start_plan, is_cancelled, recovered_index_status, IndexSignal, IndexTotals, PrefixSet};
use mahzen::models::{BucketIndexObject, BucketIndexState, ListedObject};
use mahzen::status::IndexStatus;

fn obj(key: &str, size: i64) -> ListedObject {
    ListedObject {
        key: Some(key.to_string()),
        size: Some(size),
        last_modified: Some("2024-01-01T00:00:00Z".to_string()),
        etag: Some("\"e\"".to_string()),
        storage_class: Some("STANDARD".to_string()),
    }
}

fn run(objs: Vec<ListedObject>) -> (Vec<BucketIndexObject>, IndexTotals) {
    let mut known = PrefixSet::new();
    let mut totals = IndexTotals { indexed_objects: 0, total_size: 0 };
    let rows = index_page("t", "b", &objs, &mut known, &mut totals);
    (rows, totals)
}

#[test]
fn index_with_virtual_folders() {
    let (rows, totals) = run(vec![obj("a/b/c.txt", 3), obj("a/b/d.txt", 4)]);
    let got: Vec<(String, bool, String, String)> = rows
        .iter()
        .map(|r| (r.key.clone(), r.is_folder, r.parent_prefix.clone(), r.name.clone()))
        .collect();
    assert_eq!(
        got,
        vec![
            ("a/".to_string(), true, "".to_string(), "a".to_string()),
            ("a/b/".to_string(), true, "a/".to_string(), "b".to_string()),
            ("a/b/c.txt".to_string(), false, "a/b/".to_string(), "c.txt".to_string()),
            ("a/b/d.txt".to_string(), false, "a/b/".to_string(), "d.txt".to_string()),
        ]
    );
    assert_eq!(totals.indexed_objects, 2);
    assert_eq!(totals.total_size, 7);

    let page = browse(&rows, "t", "b", "a/b/", SortField::Name, SortDir::Asc, 100, 0);
    let names: Vec<String> = page.entries.iter().map(|e| e.name.clone()).collect();
    assert_eq!(names, vec!["c.txt".to_string(), "d.txt".to_string()]);
    assert!(!page.is_truncated);

    let root = browse(&rows, "t", "b", "", SortField::Name, SortDir::Asc, 100, 0);
    let keys: Vec<String> = root.entries.iter().map(|e| e.key.clone()).collect();
    assert_eq!(keys, vec!["a/".to_string()]);
    assert!(root.entries[0].is_folder);
}

#[test]
fn full_index_row_counts() {
    let keys = ["x/1", "x/2", "x/y/3", "z/4", "top"];
    let objs: Vec<ListedObject> = keys.iter().map(|k| obj(k, 1)).collect();
    let (rows, totals) = run(objs);
    let files = rows.iter().filter(|r| !r.is_folder).count();
    let mut folders: Vec<String> = rows.iter().filter(|r| r.is_folder).map(|r| r.key.clone()).collect();
    assert_eq!(files, 5);
    folders.sort();
    assert_eq!(folders, vec!["x/".to_string(), "x/y/".to_string(), "z/".to_string()]);
    assert_eq!(totals.indexed_objects, 5);
}

#[test]
fn prefixes_are_written_once_across_pages() {
    let mut known = PrefixSet::new();
    let mut totals = IndexTotals { indexed_objects: 0, total_size: 0 };
    let first = index_page("t", "b", &vec![obj("p/q/1", 10)], &mut known, &mut totals);
    let second = index_page("t", "b", &vec![obj("p/q/2", 5), obj("p/r/3", 1)], &mut known, &mut totals);
    assert_eq!(first.len(), 3);
    let second_folders: Vec<String> = second.iter().filter(|r| r.is_folder).map(|r| r.key.clone()).collect();
    assert_eq!(second_folders, vec!["p/r/".to_string()]);
    assert_eq!(totals.indexed_objects, 3);
    assert_eq!(totals.total_size, 16);
}

#[test]
fn folder_markers_and_empty_keys() {
    let empty = ListedObject { key: None, size: None, last_modified: None, etag: None, storage_class: None };
    let (rows, totals) = run(vec![empty, obj("docs/", 0), obj("docs/", 0), obj("docs/readme.md", 9)]);
    let got: Vec<(String, bool, String)> = rows.iter().map(|r| (r.key.clone(), r.is_folder, r.name.clone())).collect();
    assert_eq!(
        got,
        vec![
            ("docs/".to_string(), true, "docs".to_string()),
            ("docs/readme.md".to_string(), false, "readme.md".to_string()),
        ]
    );
    assert_eq!(rows[1].size, 9);
    assert_eq!(rows[1].storage_class.as_deref(), Some("STANDARD"));
    assert_eq!(totals.indexed_objects, 1);
}

#[test]
fn index_start_resumes_from_token() {
    let state = BucketIndexState {
        target_id: "t".to_string(),
        bucket: "b".to_string(),
        status: IndexStatus::Idle,
        total_objects: 0,
        indexed_objects: 40,
        total_size: 900,
        continuation_token: Some("tok".to_string()),
        last_indexed_at: None,
        created_at: 1,
        updated_at: 1,
    };
    let plan = index_start_plan(&Some(state));
    assert_eq!(plan.token.as_deref(), Some("tok"));
    assert!(!plan.clear_objects);
    assert_eq!(plan.totals.indexed_objects, 40);
    assert_eq!(plan.totals.total_size, 900);

    let fresh = index_start_plan(&None);
    assert!(fresh.token.is_none());
    assert!(fresh.clear_objects);
    assert_eq!(fresh.totals.indexed_objects, 0);
}

#[test]
fn index_signals_and_recovery() {
    assert!(is_cancelled(IndexSignal::Cancel));
    assert!(!is_cancelled(IndexSignal::Run));
    assert_eq!(recovered_index_status(IndexStatus::Indexing), IndexStatus::Idle);
    assert_eq!(recovered_index_status(IndexStatus::Error), IndexStatus::Error);
}
