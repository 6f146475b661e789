use mahzen::clone_engine::{
    activate_batch, check_signal, concurrency_for, enumerate_page, enumerate_source_page, final_status,
    needs_head, needs_recovery, new_clone_job, next_page_token, outcome_status, recovered_status, settle_batch,
    should_skip, CloneSignal, EnumerationTotals, HeadInfo, ItemResult, SignalStep, BATCH_SIZE,
};
use mahzen::clone_store::ItemTable;
use mahzen::order::str_le;
use mahzen::models::{CloneJobItem, ListedObject};
use mahzen::status::{ConflictPolicy, ItemStatus, JobStatus};

fn listed(key: &str, size: i64) -> ListedObject {
    ListedObject {
        key: Some(key.to_string()),
        size: Some(size),
        last_modified: Some("2024-05-01T10:00:00Z".to_string()),
        etag: None,
        storage_class: None,
    }
}

fn ids(n: usize, tag: &str) -> Vec<String> {
    (0..n).map(|i| format!("{tag}-{i:04}")).collect()
}

/// Runs the execution loop over the table, giving every item `result`.
fn execute(table: &mut ItemTable, result: fn() -> ItemResult, stop_after: Option<usize>) -> usize {
    let mut batches = 0;
    loop {
        if stop_after == Some(batches) {
            return batches;
        }
        let batch: Vec<CloneJobItem> = table.list_pending_items(BATCH_SIZE);
        if batch.is_empty() {
            return batches;
        }
        activate_batch(table, &batch, 10);
        let results: Vec<ItemResult> = batch.iter().map(|_| result()).collect();
        settle_batch(table, &batch, &results, 11);
        batches += 1;
    }
}

#[test]
fn same_target_small_copy() {
    let job = new_clone_job(
        "job".to_string(),
        "T".to_string(),
        "B".to_string(),
        "a/".to_string(),
        "T".to_string(),
        "B".to_string(),
        "a-copy/".to_string(),
        ConflictPolicy::Overwrite,
        5,
    );
    assert!(job.is_same_target);
    assert_eq!(job.status, JobStatus::Pending);
    assert_eq!(concurrency_for(job.is_same_target), 20);

    let mut totals = EnumerationTotals { total_items: 0, total_bytes: 0 };
    let page = vec![listed("a/x", 100), listed("a/y", 200)];
    let items = enumerate_page("job", "a/", "a-copy/", &page, &ids(2, "i"), 7, &mut totals);
    let dests: Vec<String> = items.iter().map(|i| i.dest_key.clone()).collect();
    assert_eq!(dests, vec!["a-copy/x".to_string(), "a-copy/y".to_string()]);
    assert_eq!(totals.total_items, 2);
    assert_eq!(totals.total_bytes, 300);

    let mut table = ItemTable::new();
    table.insert_items_batch(items);
    execute(&mut table, || ItemResult::Completed, None);
    let c = table.count_items_by_status();
    assert_eq!((c.completed, c.failed, c.skipped, c.pending, c.active), (2, 0, 0, 0, 0));
    assert_eq!(c.total_transferred_bytes, 300);
    assert_eq!(final_status(c.pending), JobStatus::Completed);
}

#[test]
fn cross_target_with_skip() {
    let job = new_clone_job(
        "job".to_string(),
        "S".to_string(),
        "B".to_string(),
        "".to_string(),
        "D".to_string(),
        "B".to_string(),
        "g/".to_string(),
        ConflictPolicy::Skip,
        5,
    );
    assert!(!job.is_same_target);
    assert_eq!(concurrency_for(job.is_same_target), 4);
    let mut totals = EnumerationTotals { total_items: 0, total_bytes: 0 };
    let items = enumerate_page("job", "", "g/", &vec![listed("f", 1024)], &ids(1, "i"), 7, &mut totals);
    assert_eq!(items[0].dest_key, "g/f");
    assert!(needs_head(ConflictPolicy::Skip));
    let head = Some(HeadInfo { size: 5, last_modified: None });
    assert!(should_skip(ConflictPolicy::Skip, &head, &items[0].source_last_modified));

    let mut table = ItemTable::new();
    table.insert_items_batch(items);
    execute(&mut table, || ItemResult::Skipped, None);
    let c = table.count_items_by_status();
    assert_eq!((c.completed, c.skipped), (0, 1));
    assert_eq!(c.total_transferred_bytes, 0);
    assert_eq!(final_status(c.pending), JobStatus::Completed);
}

#[test]
fn conflict_policies() {
    let src = Some("2024-05-01T10:00:00Z".to_string());
    let newer = Some(HeadInfo { size: 1, last_modified: Some("2024-06-01T00:00:00Z".to_string()) });
    let older = Some(HeadInfo { size: 1, last_modified: Some("2024-04-01T00:00:00Z".to_string()) });
    let same = Some(HeadInfo { size: 1, last_modified: src.clone() });
    assert!(should_skip(ConflictPolicy::OverwriteIfNewer, &newer, &src));
    assert!(should_skip(ConflictPolicy::OverwriteIfNewer, &same, &src));
    assert!(!should_skip(ConflictPolicy::OverwriteIfNewer, &older, &src));
    assert!(!should_skip(ConflictPolicy::OverwriteIfNewer, &None, &src));
    assert!(!should_skip(ConflictPolicy::OverwriteIfNewer, &newer, &None));
    assert!(!should_skip(ConflictPolicy::Overwrite, &newer, &src));
    assert!(!should_skip(ConflictPolicy::Skip, &None, &src));
    assert!(!needs_head(ConflictPolicy::Overwrite));
    assert!(str_le("abc", "abd"));
    assert!(str_le("ab", "abc"));
    assert!(!str_le("b", "abc"));
}

#[test]
fn pause_and_resume_mid_run() {
    let page: Vec<ListedObject> = (0..300).map(|i| listed(&format!("src/{i:03}"), 1)).collect();
    let mut totals = EnumerationTotals { total_items: 0, total_bytes: 0 };
    let items = enumerate_page("job", "src/", "dst/", &page, &ids(300, "i"), 1, &mut totals);
    let mut table = ItemTable::new();
    table.insert_items_batch(items);

    // One batch, then the pause is seen at the batch boundary.
    assert_eq!(execute(&mut table, || ItemResult::Completed, Some(1)), 1);
    assert_eq!(table.count_items_by_status().completed, 100);
    let paused = check_signal(false, CloneSignal::Pause);
    assert_eq!(paused.status, Some(JobStatus::Paused));
    assert_eq!(paused.step, SignalStep::Wait);
    let still = check_signal(true, CloneSignal::Pause);
    assert_eq!(still.status, None);
    assert_eq!(still.step, SignalStep::Wait);

    // Resume.
    let resumed = check_signal(true, CloneSignal::Run);
    assert_eq!(resumed.status, Some(JobStatus::Running));
    assert_eq!(resumed.step, SignalStep::Proceed);
    assert_eq!(table.reset_active_items(2), 0);
    execute(&mut table, || ItemResult::Completed, None);
    let c = table.count_items_by_status();
    assert_eq!(c.completed, 300);
    assert_eq!(final_status(c.pending), JobStatus::Completed);
}

#[test]
fn cancel_stops_the_run() {
    let out = check_signal(false, CloneSignal::Cancel);
    assert_eq!(out.status, Some(JobStatus::Cancelled));
    assert_eq!(out.step, SignalStep::Stop);
    let out = check_signal(true, CloneSignal::Cancel);
    assert_eq!(out.step, SignalStep::Stop);
    let run = check_signal(false, CloneSignal::Run);
    assert_eq!(run.status, None);
    assert_eq!(run.step, SignalStep::Proceed);
}

#[test]
fn crash_recovery_resets_active_items() {
    let page: Vec<ListedObject> = (0..5).map(|i| listed(&format!("k{i}"), 10)).collect();
    let mut totals = EnumerationTotals { total_items: 0, total_bytes: 0 };
    let items = enumerate_page("job", "", "", &page, &ids(5, "i"), 1, &mut totals);
    let mut table = ItemTable::new();
    table.insert_items_batch(items);
    let batch = table.list_pending_items(3);
    activate_batch(&mut table, &batch, 2);
    assert_eq!(table.count_items_by_status().active, 3);

    // Restart: the job was running, so it is paused and its active items reset.
    assert_eq!(recovered_status(JobStatus::Running), JobStatus::Paused);
    assert_eq!(recovered_status(JobStatus::Enumerating), JobStatus::Paused);
    assert_eq!(recovered_status(JobStatus::Completed), JobStatus::Completed);
    assert!(needs_recovery(JobStatus::Running));
    assert!(!needs_recovery(JobStatus::Paused));
    assert_eq!(table.reset_active_items(3), 3);
    let c = table.count_items_by_status();
    assert_eq!((c.active, c.pending), (0, 5));

    execute(&mut table, || ItemResult::Completed, None);
    let c = table.count_items_by_status();
    assert_eq!(c.completed, 5);
    assert_eq!(c.total_transferred_bytes, 50);
}

#[test]
fn resume_without_pending_work_only_finishes() {
    let mut table = ItemTable::new();
    let mut totals = EnumerationTotals { total_items: 0, total_bytes: 0 };
    let items = enumerate_page("job", "", "", &vec![listed("k", 3)], &ids(1, "i"), 1, &mut totals);
    table.insert_items_batch(items);
    execute(&mut table, || ItemResult::Completed, None);
    let before = table.count_items_by_status();
    assert_eq!(execute(&mut table, || ItemResult::Failed("x".to_string()), None), 0);
    let after = table.count_items_by_status();
    assert_eq!((before.completed, before.pending), (after.completed, after.pending));
    assert_eq!(final_status(after.pending), JobStatus::Completed);
    assert_eq!(final_status(2), JobStatus::Failed);
}

#[test]
fn failures_are_counted_not_fatal() {
    let page: Vec<ListedObject> = (0..4).map(|i| listed(&format!("k{i}"), 10)).collect();
    let mut totals = EnumerationTotals { total_items: 0, total_bytes: 0 };
    let items = enumerate_page("job", "", "", &page, &ids(4, "i"), 1, &mut totals);
    let mut table = ItemTable::new();
    table.insert_items_batch(items);
    let batch = table.list_pending_items(100);
    let results = vec![
        ItemResult::Completed,
        ItemResult::Failed("boom".to_string()),
        ItemResult::Lost,
        ItemResult::Skipped,
    ];
    settle_batch(&mut table, &batch, &results, 9);
    let c = table.count_items_by_status();
    assert_eq!((c.completed, c.failed, c.skipped, c.pending), (1, 2, 1, 0));
    assert_eq!(c.completed + c.failed + c.skipped + c.pending + c.active, 4);
    assert_eq!(table.items[1].error_message.as_deref(), Some("boom"));
    assert_eq!(table.items[2].error_message.as_deref(), Some("Task failed unexpectedly"));
    assert_eq!(final_status(c.pending), JobStatus::Completed);

    // Retry resets the failures and clears their messages.
    assert_eq!(table.reset_failed_items(12), 2);
    assert!(table.items[1].error_message.is_none());
    assert_eq!(table.count_items_by_status().pending, 2);
    let (st, msg) = outcome_status(&ItemResult::Lost);
    assert_eq!(st, ItemStatus::Failed);
    assert_eq!(msg.as_deref(), Some("Task failed unexpectedly"));
}

#[test]
fn insert_is_insert_or_ignore_and_pending_is_oldest_first() {
    let page: Vec<ListedObject> = (0..3).map(|i| listed(&format!("k{i}"), 1)).collect();
    let mut totals = EnumerationTotals { total_items: 0, total_bytes: 0 };
    let items = enumerate_page("job", "", "", &page, &ids(3, "i"), 1, &mut totals);
    let again = enumerate_page("job", "", "", &page, &ids(3, "i"), 1, &mut totals);
    let mut table = ItemTable::new();
    table.insert_items_batch(items);
    table.insert_items_batch(again);
    assert_eq!(table.items.len(), 3);
    let first_two: Vec<String> = table.list_pending_items(2).iter().map(|i| i.source_key.clone()).collect();
    assert_eq!(first_two, vec!["k0".to_string(), "k1".to_string()]);
    table.update_item_status("i-0000", ItemStatus::Completed, None, 4);
    let next: Vec<String> = table.list_pending_items(10).iter().map(|i| i.source_key.clone()).collect();
    assert_eq!(next, vec!["k1".to_string(), "k2".to_string()]);
}

#[test]
fn enumeration_skips_markers_and_resumes_to_same_keys() {
    let pages = vec![
        vec![listed("p/1", 1), listed("p/", 0), listed("p/2", 2)],
        vec![listed("p/3", 3)],
        vec![listed("p/sub/", 0), listed("p/sub/4", 4)],
    ];
    let keys_of = |range: std::ops::Range<usize>| -> Vec<String> {
        let mut totals = EnumerationTotals { total_items: 0, total_bytes: 0 };
        let mut out = Vec::new();
        for p in &pages[range] {
            let items = enumerate_page("job", "p/", "q/", p, &ids(p.len(), "x"), 1, &mut totals);
            out.extend(items.into_iter().map(|i| i.source_key));
        }
        out
    };
    let full = keys_of(0..3);
    assert_eq!(full, vec!["p/1", "p/2", "p/3", "p/sub/4"]);
    // Interrupted after two pages whose second was stored but not checkpointed.
    let mut resumed = keys_of(0..2);
    resumed.extend(keys_of(1..3));
    resumed.sort();
    resumed.dedup();
    assert_eq!(resumed, full);
}

#[test]
fn enumeration_totals_and_fresh_ids() {
    let mut totals = EnumerationTotals { total_items: 4, total_bytes: 40 };
    let items = enumerate_source_page("job", "", "d/", &vec![listed("a", 5), listed("b/", 0)], 3, &mut totals);
    assert_eq!(items.len(), 1);
    assert_eq!(items[0].id.len(), 36);
    assert_eq!(items[0].status, ItemStatus::Pending);
    assert_eq!(items[0].dest_key, "d/a");
    assert_eq!((totals.total_items, totals.total_bytes), (5, 45));
}

#[test]
fn page_tokens() {
    assert_eq!(next_page_token(Some(true), Some("t2".to_string())).as_deref(), Some("t2"));
    assert_eq!(next_page_token(Some(true), None), None);
    assert_eq!(next_page_token(Some(false), Some("t2".to_string())), None);
    assert_eq!(next_page_token(None, Some("t2".to_string())), None);
}
