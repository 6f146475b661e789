use mahzen::clock::{epoch_seconds, new_time_ordered_id};
use mahzen::clone_engine::{reopen_for_retry, CloneSignal};
use mahzen::clone_run::{clone_run_step, CloneRunEvent, CloneRunOp, CloneRunState, RunStage};
use mahzen::clone_store::ItemTable;
use mahzen::models::CloneJobItem;
use mahzen::status::{ItemStatus, JobStatus};

/// Feeds events to a run and records the statuses it writes and its ops.
fn drive(start: JobStatus, events: Vec<CloneRunEvent>) -> (Vec<JobStatus>, Vec<CloneRunOp>, CloneRunState) {
    let mut state = CloneRunState::start(start);
    let mut written = Vec::new();
    let mut ops = Vec::new();
    for e in events {
        let (next, action) = clone_run_step(&state, e);
        state = next;
        if let Some(s) = action.write_status {
            written.push(s);
        }
        if let CloneRunOp::Complete(s) = action.op {
            written.push(s);
        }
        ops.push(action.op);
    }
    (written, ops, state)
}

fn rank(s: JobStatus) -> u8 {
    match s {
        JobStatus::Pending => 0,
        JobStatus::Enumerating => 1,
        JobStatus::Running | JobStatus::Paused => 2,
        _ => 3,
    }
}

#[test]
fn pause_before_enumeration_keeps_status_order() {
    let (written, ops, state) = drive(
        JobStatus::Pending,
        vec![
            CloneRunEvent::Begin { enumeration_complete: false },
            CloneRunEvent::Signal(CloneSignal::Pause),
            CloneRunEvent::Signal(CloneSignal::Run),
            CloneRunEvent::PageSaved { has_more: true },
            CloneRunEvent::CheckpointSaved,
            CloneRunEvent::Signal(CloneSignal::Run),
            CloneRunEvent::PageSaved { has_more: false },
            CloneRunEvent::EnumerationSaved,
            CloneRunEvent::Signal(CloneSignal::Run),
            CloneRunEvent::BatchFetched { len: 2, pending: 2 },
            CloneRunEvent::BatchSettled,
            CloneRunEvent::ProgressSaved,
            CloneRunEvent::Signal(CloneSignal::Run),
            CloneRunEvent::BatchFetched { len: 0, pending: 0 },
        ],
    );
    assert_eq!(
        written,
        vec![JobStatus::Enumerating, JobStatus::Paused, JobStatus::Running, JobStatus::Running, JobStatus::Completed]
    );
    for w in written.windows(2) {
        assert!(rank(w[0]) <= rank(w[1]));
    }
    assert_eq!(
        ops,
        vec![
            CloneRunOp::ReadSignal,
            CloneRunOp::WaitSignal,
            CloneRunOp::ListPage,
            CloneRunOp::SaveCheckpoint,
            CloneRunOp::ReadSignal,
            CloneRunOp::ListPage,
            CloneRunOp::FinishEnumeration,
            CloneRunOp::ReadSignal,
            CloneRunOp::FetchBatch,
            CloneRunOp::ProcessBatch,
            CloneRunOp::SaveProgress,
            CloneRunOp::ReadSignal,
            CloneRunOp::FetchBatch,
            CloneRunOp::Complete(JobStatus::Completed),
        ]
    );
    assert_eq!(state.stage, RunStage::Done);
}

#[test]
fn enumeration_writes_before_the_first_signal() {
    let (_, a) = clone_run_step(&CloneRunState::start(JobStatus::Pending), CloneRunEvent::Begin { enumeration_complete: false });
    assert_eq!(a.write_status, Some(JobStatus::Enumerating));
    assert_eq!(a.op, CloneRunOp::ReadSignal);
    // A job resumed from pause does not go back to enumerating.
    let (_, a) = clone_run_step(&CloneRunState::start(JobStatus::Paused), CloneRunEvent::Begin { enumeration_complete: false });
    assert_eq!(a.write_status, Some(JobStatus::Running));
}

#[test]
fn resume_with_nothing_pending_only_completes() {
    let (written, ops, _) = drive(
        JobStatus::Paused,
        vec![
            CloneRunEvent::Begin { enumeration_complete: true },
            CloneRunEvent::Signal(CloneSignal::Run),
            CloneRunEvent::BatchFetched { len: 0, pending: 0 },
        ],
    );
    assert_eq!(written, vec![JobStatus::Running, JobStatus::Completed]);
    assert_eq!(ops, vec![CloneRunOp::ReadSignal, CloneRunOp::FetchBatch, CloneRunOp::Complete(JobStatus::Completed)]);
}

#[test]
fn cancel_during_run_and_terminal_jobs() {
    let (written, ops, state) = drive(
        JobStatus::Running,
        vec![
            CloneRunEvent::Begin { enumeration_complete: true },
            CloneRunEvent::Signal(CloneSignal::Pause),
            CloneRunEvent::Signal(CloneSignal::Pause),
            CloneRunEvent::Signal(CloneSignal::Cancel),
        ],
    );
    assert_eq!(written, vec![JobStatus::Paused, JobStatus::Cancelled]);
    assert_eq!(ops, vec![CloneRunOp::ReadSignal, CloneRunOp::WaitSignal, CloneRunOp::WaitSignal, CloneRunOp::Stop]);
    assert_eq!(state.status, JobStatus::Cancelled);

    let (written, ops, _) = drive(JobStatus::Cancelled, vec![CloneRunEvent::Begin { enumeration_complete: true }]);
    assert!(written.is_empty());
    assert_eq!(ops, vec![CloneRunOp::Stop]);
    // An event out of place ends the run without a write.
    let (written, ops, _) = drive(JobStatus::Pending, vec![CloneRunEvent::BatchSettled]);
    assert!(written.is_empty());
    assert_eq!(ops, vec![CloneRunOp::Stop]);
}

#[test]
fn leftover_pending_items_fail_the_job() {
    let (written, _, _) = drive(
        JobStatus::Running,
        vec![
            CloneRunEvent::Begin { enumeration_complete: true },
            CloneRunEvent::Signal(CloneSignal::Run),
            CloneRunEvent::BatchFetched { len: 0, pending: 3 },
        ],
    );
    assert_eq!(written, vec![JobStatus::Running, JobStatus::Failed]);
}

#[test]
fn retry_reopens_finished_jobs() {
    assert_eq!(reopen_for_retry(JobStatus::Completed), JobStatus::Pending);
    assert_eq!(reopen_for_retry(JobStatus::Failed), JobStatus::Pending);
    assert_eq!(reopen_for_retry(JobStatus::Cancelled), JobStatus::Cancelled);
    assert_eq!(reopen_for_retry(JobStatus::Paused), JobStatus::Paused);
}

#[test]
fn clock_reading_conversion() {
    assert_eq!(epoch_seconds(None), 0);
    assert_eq!(epoch_seconds(Some((1_700_000_000, 5))), 1_700_000_000);
    assert_eq!(epoch_seconds(Some((u64::MAX, 0))), i64::MAX);
    assert_eq!(new_time_ordered_id().len(), 36);
}

fn item(id: &str, created_at: i64, status: ItemStatus) -> CloneJobItem {
    CloneJobItem {
        id: id.to_string(),
        job_id: "j".to_string(),
        source_key: id.to_string(),
        dest_key: id.to_string(),
        size: 1,
        source_etag: None,
        source_last_modified: None,
        status,
        error_message: None,
        retry_count: 0,
        created_at,
        updated_at: created_at,
    }
}

#[test]
fn batches_are_oldest_first() {
    let table = ItemTable {
        items: vec![
            item("a", 1, ItemStatus::Completed),
            item("b", 2, ItemStatus::Pending),
            item("c", 2, ItemStatus::Active),
            item("d", 5, ItemStatus::Pending),
            item("e", 9, ItemStatus::Pending),
        ],
    };
    assert!(table.is_valid());
    let batch: Vec<(String, i64)> = table.list_pending_items(2).into_iter().map(|i| (i.id, i.created_at)).collect();
    assert_eq!(batch, vec![("b".to_string(), 2), ("d".to_string(), 5)]);
    assert_eq!(table.stamp_after(3), 9);
    assert_eq!(table.stamp_after(12), 12);

    let unordered = ItemTable { items: vec![item("x", 5, ItemStatus::Pending), item("y", 4, ItemStatus::Pending)] };
    assert!(!unordered.is_valid());
    let mut negative = item("z", 1, ItemStatus::Pending);
    negative.size = -1;
    assert!(!ItemTable { items: vec![negative] }.is_valid());
}

#[test]
fn updates_apply_to_every_row_with_the_id() {
    let mut table = ItemTable { items: vec![item("a", 1, ItemStatus::Pending), item("a", 2, ItemStatus::Pending)] };
    table.update_item_status("a", ItemStatus::Failed, Some("x".to_string()), 7);
    assert!(table.items.iter().all(|i| i.status == ItemStatus::Failed && i.updated_at == 7));
}

#[test]
fn trimming_and_decimal_digits() {
    assert_eq!(mahzen::gateway::trim_str("\u{3000}\t eu-west-1 \u{a0}\n"), "eu-west-1");
    assert_eq!(mahzen::gateway::trim_str("  a b  "), "a b");
    assert_eq!(mahzen::gateway::trim_str(" \u{2003} "), "");
    assert_eq!(mahzen::gateway::trim_str("x"), "x");
    assert_eq!(mahzen::catalog::decimal(0), "0");
    assert_eq!(mahzen::catalog::decimal(1234), "1234");
    assert_eq!(mahzen::catalog::decimal(usize::MAX), usize::MAX.to_string());
}
