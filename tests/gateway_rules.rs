use mahzen::catalog::{browse, like, search, SortDir, SortField};
use mahzen::content_type::{content_type_for_extension, extension, guess_content_type};
use mahzen::gateway::{
    ascii_eq_ignore_case, bucket_summaries, client_config, default_region, delete_batches, folder_key, listing_entries, listing_page,
    recursive_entries, resolve_region, strip_prefix, tally_page, zip_entry_name, ConfigError,
};
use mahzen::models::{BucketIndexObject, BucketStats, ListedObject, S3BucketSummary, StorageTarget, TargetCredentials};
use mahzen::multipart::{plan_copy, CopyPlan, MULTIPART_THRESHOLD, PART_SIZE};
use mahzen::status::{ConflictPolicy, IndexStatus, ItemStatus, JobStatus};

fn listed(key: &str, size: i64) -> ListedObject {
    ListedObject { key: Some(key.to_string()), size: Some(size), last_modified: None, etag: None, storage_class: None }
}

fn target(region: Option<&str>, provider: &str, endpoint: &str) -> StorageTarget {
    StorageTarget {
        id: "t".to_string(),
        name: "n".to_string(),
        provider: provider.to_string(),
        endpoint: endpoint.to_string(),
        region: region.map(|r| r.to_string()),
        force_path_style: true,
        default_bucket: None,
        pinned_buckets: vec![],
        skip_destructive_confirmations: false,
        has_credentials: true,
        updated_at: 0,
    }
}

fn creds(ak: &str, sk: &str) -> TargetCredentials {
    TargetCredentials { access_key_id: ak.to_string(), secret_access_key: sk.to_string(), session_token: None }
}

#[test]
fn large_object_multipart_copy() {
    let size: i64 = 7 * 1024 * 1024 * 1024;
    match plan_copy(size) {
        CopyPlan::Multipart(parts) => {
            assert_eq!(parts.len(), 72);
            for (k, p) in parts.iter().enumerate() {
                assert_eq!(p.part_number as usize, k + 1);
                assert_eq!(p.start, k as i64 * PART_SIZE);
            }
            let full = parts.iter().filter(|p| p.end - p.start + 1 == 100 * 1024 * 1024).count();
            assert_eq!(full, 71);
            let last = parts[71];
            assert_eq!(last.end, size - 1);
            assert_eq!(last.end - last.start + 1, size - 71 * 100 * 1024 * 1024);
        }
        CopyPlan::Single => panic!("expected a multipart copy"),
    }
}

#[test]
fn small_objects_copy_in_one_call() {
    assert!(matches!(plan_copy(0), CopyPlan::Single));
    assert!(matches!(plan_copy(MULTIPART_THRESHOLD), CopyPlan::Single));
    match plan_copy(MULTIPART_THRESHOLD + 1) {
        CopyPlan::Multipart(parts) => {
            assert_eq!(parts.len(), 52);
            assert_eq!(parts[51].end, MULTIPART_THRESHOLD);
        }
        CopyPlan::Single => panic!("expected a multipart copy"),
    }
}

#[test]
fn content_types_by_extension() {
    assert_eq!(guess_content_type("site/index.HTML"), "text/html");
    assert_eq!(guess_content_type("a/b/archive.tar.GZ"), "application/gzip");
    assert_eq!(guess_content_type("photo.JpEg"), "image/jpeg");
    assert_eq!(guess_content_type("README"), "application/octet-stream");
    assert_eq!(guess_content_type("deck.pptx"), "application/vnd.openxmlformats-officedocument.presentationml.presentation");
    assert_eq!(content_type_for_extension("woff2"), "font/woff2");
    assert_eq!(content_type_for_extension("JSON"), "application/octet-stream");
    assert_eq!(extension("a.b/c"), "b/c");
    assert_eq!(extension("noext"), "noext");
}

#[test]
fn regions() {
    assert_eq!(default_region("Cloudflare R2"), "auto");
    assert_eq!(default_region("cloudflare r2"), "auto");
    assert_eq!(default_region("AWS"), "us-east-1");
    assert_eq!(resolve_region(&Some("  eu-west-1 ".to_string()), "AWS"), "eu-west-1");
    assert_eq!(resolve_region(&Some("   ".to_string()), "CLOUDFLARE R2"), "auto");
    assert_eq!(resolve_region(&None, "MinIO"), "us-east-1");
    assert!(ascii_eq_ignore_case("MinIO", "minio"));
    assert!(!ascii_eq_ignore_case("MinIO", "mini"));
}

#[test]
fn client_configuration() {
    let t = target(None, "Cloudflare R2", "  https://x.r2.example.com ");
    let c = client_config(&t, &creds("AK", "SK")).ok().unwrap();
    assert_eq!(c.region, "auto");
    assert_eq!(c.endpoint_url.as_deref(), Some("https://x.r2.example.com"));
    assert!(c.force_path_style);
    assert_eq!(c.access_key_id, "AK");
    let t2 = target(Some("ap-south-1"), "AWS", " ");
    let c2 = client_config(&t2, &creds("AK", "SK")).ok().unwrap();
    assert_eq!(c2.region, "ap-south-1");
    assert!(c2.endpoint_url.is_none());
    assert!(matches!(client_config(&t, &creds("  ", "SK")), Err(ConfigError::MissingCredentials)));
    assert!(matches!(client_config(&t, &creds("AK", "")), Err(ConfigError::MissingCredentials)));
}

#[test]
fn delimited_listing_page() {
    let cps = vec![Some("p/".to_string()), Some("p/zeta/".to_string()), Some("p/Alpha/".to_string()), None];
    let contents = vec![listed("p/", 0), listed("p/b.txt", 2), listed("p/A.txt", 1), listed("p/sub/", 0), listed("", 0)];
    let page = listing_page("p/", &cps, &contents, Some(true), Some("next".to_string()));
    let got: Vec<(String, bool)> = page.entries.iter().map(|e| (e.name.clone(), e.is_folder)).collect();
    assert_eq!(
        got,
        vec![
            ("Alpha".to_string(), true),
            ("zeta".to_string(), true),
            ("A.txt".to_string(), false),
            ("b.txt".to_string(), false),
        ]
    );
    assert!(page.is_truncated);
    assert_eq!(page.next_continuation_token.as_deref(), Some("next"));
    let last = listing_page("p/", &cps, &contents, Some(false), Some("next".to_string()));
    assert!(!last.is_truncated);
    assert!(last.next_continuation_token.is_none());
}

#[test]
fn listing_sorts_by_lower_case_name() {
    let entries = listing_entries("", &vec![], &vec![listed("b", 1), listed("C", 1), listed("a", 1)]);
    let names: Vec<String> = entries.iter().map(|e| e.name.clone()).collect();
    assert_eq!(names, vec!["a".to_string(), "b".to_string(), "C".to_string()]);
}

#[test]
fn recursive_listing() {
    let entries = recursive_entries(&vec![listed("x/", 0), listed("x/y/z.bin", 8), listed("top", 1)]);
    let got: Vec<(String, String, i64)> = entries.iter().map(|e| (e.key.clone(), e.name.clone(), e.size)).collect();
    assert_eq!(
        got,
        vec![("x/y/z.bin".to_string(), "z.bin".to_string(), 8), ("top".to_string(), "top".to_string(), 1)]
    );
}

#[test]
fn bulk_delete_batches() {
    let keys: Vec<String> = (0..2500).map(|i| format!("k{i}")).collect();
    let batches = delete_batches(&keys);
    let sizes: Vec<usize> = batches.iter().map(|b| b.len()).collect();
    assert_eq!(sizes, vec![1000, 1000, 500]);
    assert_eq!(batches[1][0], "k1000");
    assert_eq!(delete_batches(&vec![]).len(), 0);
    assert_eq!(delete_batches(&keys[..1000].to_vec()).len(), 1);
}

#[test]
fn folder_and_zip_names() {
    assert_eq!(folder_key("new"), "new/");
    assert_eq!(folder_key("new/"), "new/");
    assert_eq!(zip_entry_name("base/a/b.txt", "base/").as_deref(), Some("a/b.txt"));
    assert_eq!(zip_entry_name("base/", "base/"), None);
    assert_eq!(zip_entry_name("other/x", "base/").as_deref(), Some("other/x"));
    assert_eq!(strip_prefix("abc", "ab"), "c");
}

#[test]
fn bucket_statistics() {
    let mut stats = BucketStats { object_count: 0, total_size: 0 };
    tally_page(&mut stats, &vec![listed("a", 10), listed("d/", 0), listed("b", 5)]);
    tally_page(&mut stats, &vec![listed("c", 1)]);
    assert_eq!((stats.object_count, stats.total_size), (4, 16));
}

fn row(key: &str, parent: &str, name: &str, folder: bool, size: i64, lm: Option<&str>) -> BucketIndexObject {
    BucketIndexObject {
        target_id: "t".to_string(),
        bucket: "b".to_string(),
        key: key.to_string(),
        parent_prefix: parent.to_string(),
        name: name.to_string(),
        is_folder: folder,
        size,
        last_modified: lm.map(|s| s.to_string()),
        etag: None,
        storage_class: None,
    }
}

#[test]
fn browse_orders_and_pages() {
    let rows = vec![
        row("d/a.bin", "d/", "a.bin", false, 30, Some("2024-03-01")),
        row("d/b.bin", "d/", "b.bin", false, 10, None),
        row("d/c.bin", "d/", "c.bin", false, 30, Some("2024-01-01")),
        row("d/sub/", "d/", "sub", true, 0, None),
        row("e/x", "e/", "x", false, 1, None),
    ];
    let by_size = browse(&rows, "t", "b", "d/", SortField::Size, SortDir::Desc, 10, 0);
    let names: Vec<String> = by_size.entries.iter().map(|e| e.name.clone()).collect();
    assert_eq!(names, vec!["sub", "a.bin", "c.bin", "b.bin"]);

    let by_lm = browse(&rows, "t", "b", "d/", SortField::LastModified, SortDir::Asc, 10, 0);
    let names: Vec<String> = by_lm.entries.iter().map(|e| e.name.clone()).collect();
    assert_eq!(names, vec!["sub", "b.bin", "c.bin", "a.bin"]);

    let first = browse(&rows, "t", "b", "d/", SortField::Name, SortDir::Desc, 2, 0);
    let names: Vec<String> = first.entries.iter().map(|e| e.name.clone()).collect();
    assert_eq!(names, vec!["sub", "c.bin"]);
    assert!(first.is_truncated);
    assert_eq!(first.next_continuation_token.as_deref(), Some("2"));
    let second = browse(&rows, "t", "b", "d/", SortField::Name, SortDir::Desc, 2, 2);
    let names: Vec<String> = second.entries.iter().map(|e| e.name.clone()).collect();
    assert_eq!(names, vec!["b.bin", "a.bin"]);
    assert!(!second.is_truncated);
    assert!(second.next_continuation_token.is_none());
    let past = browse(&rows, "t", "b", "d/", SortField::Name, SortDir::Asc, 5, 10);
    assert!(past.entries.is_empty());
    let big = browse(&rows, "t", "b", "d/", SortField::Name, SortDir::Asc, 1, 12);
    assert!(big.entries.is_empty());
}

#[test]
fn sort_names_are_validated() {
    assert_eq!(SortDir::from_name("desc"), SortDir::Desc);
    assert_eq!(SortDir::from_name("DESC"), SortDir::Desc);
    assert_eq!(SortDir::from_name("DESC; DROP"), SortDir::Asc);
    assert_eq!(SortField::from_name("size"), SortField::Size);
    assert_eq!(SortField::from_name("lastModified"), SortField::LastModified);
    assert_eq!(SortField::from_name("storageClass"), SortField::StorageClass);
    assert_eq!(SortField::from_name("bogus"), SortField::Name);
}

#[test]
fn stored_status_names() {
    assert_eq!(JobStatus::parse("enumerating"), Some(JobStatus::Enumerating));
    assert_eq!(JobStatus::Cancelled.as_str(), "cancelled");
    assert_eq!(JobStatus::parse("bogus"), None);
    assert_eq!(ItemStatus::parse("active"), Some(ItemStatus::Active));
    assert_eq!(ItemStatus::Skipped.as_str(), "skipped");
    assert_eq!(IndexStatus::parse("indexing"), Some(IndexStatus::Indexing));
    assert_eq!(IndexStatus::Error.as_str(), "error");
    assert_eq!(ConflictPolicy::from_name("overwriteIfNewer"), ConflictPolicy::OverwriteIfNewer);
    assert_eq!(ConflictPolicy::from_name("whatever"), ConflictPolicy::Overwrite);
    assert_eq!(ConflictPolicy::Skip.as_str(), "skip");
}

#[test]
fn clock_reads_after_the_epoch() {
    assert!(mahzen::clock::now_epoch() > 1_600_000_000);
}

#[test]
fn default_settings() {
    let s: mahzen::models::AppSettings = Default::default();
    assert_eq!(s.theme, "dark");
    assert_eq!(s.font_size, 12);
    assert_eq!(s.concurrent_downloads, 5);
    assert!(s.verify_checksum);
}

#[test]
fn catalog_search() {
    let mut rows = vec![
        row("assets/images/image.png", "assets/images/", "image.png", false, 1, None),
        row("b/Photo.PNG", "b/", "Photo.PNG", false, 1, None),
        row("images/", "", "images", true, 0, None),
        row("docs/a_b.txt", "docs/", "a_b.txt", false, 1, None),
    ];
    let mut other = row("x/image.png", "x/", "image.png", false, 1, None);
    other.bucket = "other".to_string();
    rows.push(other);

    let names = |q: &str, limit: usize| -> Vec<String> {
        search(&rows, "t", "b", q, limit).iter().map(|e| e.key.clone()).collect()
    };
    assert_eq!(names("image.png", 10), vec!["assets/images/image.png".to_string()]);
    assert_eq!(names("assets/images/image.png", 10), vec!["assets/images/image.png".to_string()]);
    assert_eq!(names("png", 10), vec!["b/Photo.PNG".to_string(), "assets/images/image.png".to_string()]);
    assert_eq!(names("png", 1), vec!["b/Photo.PNG".to_string()]);
    assert_eq!(names("images", 10), vec!["assets/images/image.png".to_string()]);
    assert_eq!(names("a_b", 10).len(), 1);
    assert_eq!(names("zzz", 10).len(), 0);
    assert_eq!(names("", 10).len(), 3);

    let c = |s: &str| s.chars().collect::<Vec<char>>();
    assert!(like(&c("%a_c%"), &c("xxAbCyy")));
    assert!(!like(&c("a_c"), &c("ac")));
    assert!(like(&c("%"), &c("")));
    assert!(!like(&c(""), &c("a")));
}

#[test]
fn bucket_listing_order() {
    let raw = vec![
        S3BucketSummary { name: "zeta".to_string(), created_at: Some(3) },
        S3BucketSummary { name: "".to_string(), created_at: None },
        S3BucketSummary { name: "Alpha".to_string(), created_at: Some(1) },
        S3BucketSummary { name: "beta".to_string(), created_at: None },
    ];
    let got: Vec<(String, Option<i64>)> = bucket_summaries(&raw).into_iter().map(|b| (b.name, b.created_at)).collect();
    assert_eq!(
        got,
        vec![("Alpha".to_string(), Some(1)), ("beta".to_string(), None), ("zeta".to_string(), Some(3))]
    );
}
