//! The clone engine's decisions: how control signals move a job, which
//! items a listing page yields, whether an item is skipped under the
//! conflict policy, what a finished task does to its item, and how a run
//! ends. The loop that performs the remote calls drives these.

use vstd::prelude::*;
use crate::clone_store::{count_status, pending_of, set_status_row, ItemTable};
use crate::keys::{compute_dest_key, dest_key_of};
use crate::models::{clone_opt, opt_view, CloneJob, CloneJobItem, ItemView, ListedObject, ListedView};
use crate::text::str_eq;
use crate::order::{lex_cmp, str_le};
use crate::status::{ConflictPolicy, ItemStatus, JobStatus};
use crate::text::{chars_of, ends_with_slash, to_string_of};

verus! {

/// Items copied at once when source and destination share an endpoint.
pub const SAME_TARGET_CONCURRENCY: usize = 20;

/// Items copied at once across endpoints (each stages a temporary file).
pub const CROSS_TARGET_CONCURRENCY: usize = 4;

/// Pending items taken per execution batch.
pub const BATCH_SIZE: usize = 100;

/// Control signal of a clone job; the latest value wins.
#[derive(Clone, Copy, Debug, PartialEq, Eq, Structural)]
pub enum CloneSignal {
    Run,
    Pause,
    Cancel,
}

/// What the engine does after looking at the signal.
#[derive(Clone, Copy, Debug, PartialEq, Eq, Structural)]
pub enum SignalStep {
    /// Go on with the next batch or page.
    Proceed,
    /// Wait for the signal to change.
    Wait,
    /// End the run; the job is cancelled.
    Stop,
}

/// The status to write (if any) and the step to take.
pub struct SignalOutcome {
    pub status: Option<JobStatus>,
    pub step: SignalStep,
}

/// Reaction to a signal. `waiting` tells whether the engine is already
/// paused and waiting for a change.
pub open spec fn signal_spec(waiting: bool, signal: CloneSignal) -> (Option<JobStatus>, SignalStep) {
    match signal {
        CloneSignal::Run => if waiting {
            (Some(JobStatus::Running), SignalStep::Proceed)
        } else {
            (None, SignalStep::Proceed)
        },
        CloneSignal::Pause => if waiting {
            (None, SignalStep::Wait)
        } else {
            (Some(JobStatus::Paused), SignalStep::Wait)
        },
        CloneSignal::Cancel => (Some(JobStatus::Cancelled), SignalStep::Stop),
    }
}

/// Reacts to the current signal: `Run` proceeds (a paused job goes back to
/// running), `Pause` pauses the job once and waits, `Cancel` cancels it.
pub fn check_signal(waiting: bool, signal: CloneSignal) -> (r: SignalOutcome)
    ensures
        (r.status, r.step) == signal_spec(waiting, signal),
{
    match signal {
        CloneSignal::Run => if waiting {
            SignalOutcome { status: Some(JobStatus::Running), step: SignalStep::Proceed }
        } else {
            SignalOutcome { status: None, step: SignalStep::Proceed }
        },
        CloneSignal::Pause => if waiting {
            SignalOutcome { status: None, step: SignalStep::Wait }
        } else {
            SignalOutcome { status: Some(JobStatus::Paused), step: SignalStep::Wait }
        },
        CloneSignal::Cancel => SignalOutcome { status: Some(JobStatus::Cancelled), step: SignalStep::Stop },
    }
}

/// How many items of a batch run at once.
pub fn concurrency_for(is_same_target: bool) -> (r: usize)
    ensures
        r == if is_same_target {
            SAME_TARGET_CONCURRENCY
        } else {
            CROSS_TARGET_CONCURRENCY
        },
{
    if is_same_target {
        SAME_TARGET_CONCURRENCY
    } else {
        CROSS_TARGET_CONCURRENCY
    }
}

/// The status a run ends with once no batch is left: completed when no item
/// is pending (failed items are reported in the counters), failed otherwise.
pub open spec fn final_status_of(pending: int) -> JobStatus {
    if pending == 0 {
        JobStatus::Completed
    } else {
        JobStatus::Failed
    }
}

pub fn final_status(pending: i64) -> (r: JobStatus)
    ensures
        r == final_status_of(pending as int),
{
    if pending == 0 {
        JobStatus::Completed
    } else {
        JobStatus::Failed
    }
}

/// The order of statuses within a run: pending, then enumerating, then
/// running or paused, then a terminal status.
pub open spec fn status_rank(s: JobStatus) -> int {
    match s {
        JobStatus::Pending => 0,
        JobStatus::Enumerating => 1,
        JobStatus::Running => 2,
        JobStatus::Paused => 2,
        _ => 3,
    }
}

/// What a `HEAD` of the destination key found: its size and modification
/// time.
pub struct HeadInfo {
    pub size: i64,
    pub last_modified: Option<String>,
}

/// Whether the policy needs to look at the destination before copying.
pub fn needs_head(policy: ConflictPolicy) -> (r: bool)
    ensures
        r == (policy != ConflictPolicy::Overwrite),
{
    match policy {
        ConflictPolicy::Overwrite => false,
        _ => true,
    }
}

/// Whether an item is skipped. `dest` is the destination's modification
/// time when the key exists there (`None` when it is absent).
pub open spec fn skip_spec(policy: ConflictPolicy, dest: Option<Option<Seq<char>>>, source_last_modified: Option<Seq<char>>) -> bool {
    match policy {
        ConflictPolicy::Overwrite => false,
        ConflictPolicy::Skip => dest is Some,
        ConflictPolicy::OverwriteIfNewer => match (dest, source_last_modified) {
            (Some(Some(d)), Some(s)) => lex_cmp(s, d) <= 0,
            _ => false,
        },
    }
}

pub open spec fn head_view(h: Option<HeadInfo>) -> Option<Option<Seq<char>>> {
    match h {
        Some(info) => Some(opt_view(info.last_modified)),
        None => None,
    }
}

/// Applies the conflict policy: `skip` skips any key the destination
/// holds; `overwriteIfNewer` skips when the destination is at least as new
/// as the source (both times known); `overwrite` never skips.
pub fn should_skip(policy: ConflictPolicy, dest_head: &Option<HeadInfo>, source_last_modified: &Option<String>) -> (r: bool)
    ensures
        r == skip_spec(policy, head_view(*dest_head), opt_view(*source_last_modified)),
{
    match policy {
        ConflictPolicy::Overwrite => false,
        ConflictPolicy::Skip => dest_head.is_some(),
        ConflictPolicy::OverwriteIfNewer => match (dest_head, source_last_modified) {
            (Some(info), Some(src)) => match &info.last_modified {
                Some(d) => str_le(src.as_str(), d.as_str()),
                None => false,
            },
            _ => false,
        },
    }
}

/// How the task of one item ended.
pub enum ItemResult {
    Completed,
    Skipped,
    /// The copy failed with this message.
    Failed(String),
    /// The task itself was lost (it panicked or could not be joined).
    Lost,
}

pub open spec fn lost_task_message() -> Seq<char> {
    "Task failed unexpectedly"@
}

/// The status and error message an item gets for a result.
pub open spec fn outcome_spec(r: ItemResult) -> (ItemStatus, Option<Seq<char>>) {
    match r {
        ItemResult::Completed => (ItemStatus::Completed, None),
        ItemResult::Skipped => (ItemStatus::Skipped, None),
        ItemResult::Failed(m) => (ItemStatus::Failed, Some(m@)),
        ItemResult::Lost => (ItemStatus::Failed, Some(lost_task_message())),
    }
}

pub fn outcome_status(r: &ItemResult) -> (out: (ItemStatus, Option<String>))
    ensures
        (out.0, opt_view(out.1)) == outcome_spec(*r),
{
    match r {
        ItemResult::Completed => (ItemStatus::Completed, None),
        ItemResult::Skipped => (ItemStatus::Skipped, None),
        ItemResult::Failed(m) => (ItemStatus::Failed, Some(m.clone())),
        ItemResult::Lost => (ItemStatus::Failed, Some(to_string_of("Task failed unexpectedly"))),
    }
}

/// The page token to continue from: the next token when the page was
/// truncated and one came with it; otherwise enumeration is over.
pub fn next_page_token(is_truncated: Option<bool>, next_token: Option<String>) -> (r: Option<String>)
    ensures
        opt_view(r) == (if is_truncated == Some(true) {
            opt_view(next_token)
        } else {
            None
        }),
{
    match is_truncated {
        Some(true) => next_token,
        _ => None,
    }
}

/// Whether a listed object becomes an item: folder markers and empty keys
/// are left out.
pub open spec fn accepted(o: ListedView) -> bool {
    o.key.len() > 0 && !ends_with_slash(o.key)
}

/// The item a listed object yields.
pub open spec fn item_of(job_id: Seq<char>, sp: Seq<char>, dp: Seq<char>, o: ListedView, id: Seq<char>, now: int) -> ItemView {
    ItemView {
        id: id,
        job_id: job_id,
        source_key: o.key,
        dest_key: dest_key_of(o.key, sp, dp),
        size: o.size,
        source_etag: o.etag,
        source_last_modified: o.last_modified,
        status: ItemStatus::Pending,
        error_message: None,
        retry_count: 0,
        created_at: now,
        updated_at: now,
    }
}

/// The items of the first `n` objects of a page; object `i` gets `ids[i]`.
pub open spec fn page_items(
    job_id: Seq<char>,
    sp: Seq<char>,
    dp: Seq<char>,
    objs: Seq<ListedView>,
    ids: Seq<Seq<char>>,
    now: int,
    n: int,
) -> Seq<ItemView>
    decreases n,
{
    if n <= 0 {
        Seq::empty()
    } else {
        let r = page_items(job_id, sp, dp, objs, ids, now, n - 1);
        if accepted(objs[n - 1]) {
            r.push(item_of(job_id, sp, dp, objs[n - 1], ids[n - 1], now))
        } else {
            r
        }
    }
}

/// The keys of a listing that become items, in listing order.
pub open spec fn accepted_keys(objs: Seq<ListedView>) -> Seq<Seq<char>>
    decreases objs.len(),
{
    if objs.len() == 0 {
        Seq::empty()
    } else if accepted(objs.last()) {
        accepted_keys(objs.drop_last()).push(objs.last().key)
    } else {
        accepted_keys(objs.drop_last())
    }
}

/// Count and total size of the accepted objects among the first `n`.
pub open spec fn accepted_totals(objs: Seq<ListedView>, n: int) -> (int, int)
    decreases n,
{
    if n <= 0 {
        (0, 0)
    } else {
        let (c, s) = accepted_totals(objs, n - 1);
        if accepted(objs[n - 1]) {
            (c + 1, s + objs[n - 1].size)
        } else {
            (c, s)
        }
    }
}

/// Running totals of an enumeration.
pub struct EnumerationTotals {
    pub total_items: i64,
    pub total_bytes: i64,
}

proof fn lemma_accepted_totals_bounds(objs: Seq<ListedView>, m: int, n: int)
    requires
        0 <= m <= n <= objs.len(),
        forall|j: int| 0 <= j < objs.len() ==> 0 <= (#[trigger] objs[j]).size,
    ensures
        0 <= accepted_totals(objs, m).0 <= m,
        0 <= accepted_totals(objs, m).1 <= accepted_totals(objs, n).1,
    decreases n,
{
    if n > m {
        lemma_accepted_totals_bounds(objs, m, n - 1);
    } else if m > 0 {
        lemma_accepted_totals_bounds(objs, m - 1, m - 1);
    }
}

proof fn lemma_page_item_keys(job_id: Seq<char>, sp: Seq<char>, dp: Seq<char>, objs: Seq<ListedView>, ids: Seq<Seq<char>>, now: int, n: int)
    requires
        0 <= n <= objs.len(),
    ensures
        page_items(job_id, sp, dp, objs, ids, now, n).map_values(|it: ItemView| it.source_key)
            == accepted_keys(objs.take(n)),
    decreases n,
{
    if n > 0 {
        lemma_page_item_keys(job_id, sp, dp, objs, ids, now, n - 1);
        assert(objs.take(n).drop_last() =~= objs.take(n - 1));
        let r = page_items(job_id, sp, dp, objs, ids, now, n - 1);
        if accepted(objs[n - 1]) {
            assert(r.push(item_of(job_id, sp, dp, objs[n - 1], ids[n - 1], now)).map_values(|it: ItemView| it.source_key)
                =~= r.map_values(|it: ItemView| it.source_key).push(objs[n - 1].key));
        }
    } else {
        assert(page_items(job_id, sp, dp, objs, ids, now, 0).map_values(|it: ItemView| it.source_key)
            =~= accepted_keys(objs.take(0)));
    }
}

/// The items of one listing page, in listing order: each object that is not
/// a folder marker becomes a pending item with the next id, its destination
/// key mapped from the source prefix to the destination prefix. The totals
/// grow by the number and size of the new items.
pub fn enumerate_page(
    job_id: &str,
    source_prefix: &str,
    dest_prefix: &str,
    objects: &Vec<ListedObject>,
    ids: &Vec<String>,
    now: i64,
    totals: &mut EnumerationTotals,
) -> (items: Vec<CloneJobItem>)
    requires
        ids@.len() == objects@.len(),
        forall|i: int| 0 <= i < objects@.len() ==> 0 <= (#[trigger] objects@[i])@.size,
        0 <= old(totals).total_items,
        0 <= old(totals).total_bytes,
        old(totals).total_items + objects@.len() <= i64::MAX,
        old(totals).total_bytes + accepted_totals(listed_seq(objects@), objects@.len() as int).1 <= i64::MAX,
    ensures
        items@.map_values(|it: CloneJobItem| it@) == page_items(
            job_id@,
            source_prefix@,
            dest_prefix@,
            listed_seq(objects@),
            ids@.map_values(|s: String| s@),
            now as int,
            objects@.len() as int,
        ),
        items@.map_values(|it: CloneJobItem| it@.source_key) == accepted_keys(listed_seq(objects@)),
        forall|i: int| 0 <= i < items@.len() ==> 0 <= (#[trigger] items@[i]).size,
        items@.len() == accepted_totals(listed_seq(objects@), objects@.len() as int).0,
        forall|i: int| 0 <= i < items@.len() ==> (#[trigger] items@[i]).created_at == now && items@[i].status == ItemStatus::Pending,
        final(totals).total_items == old(totals).total_items + accepted_totals(listed_seq(objects@), objects@.len() as int).0,
        final(totals).total_bytes == old(totals).total_bytes + accepted_totals(listed_seq(objects@), objects@.len() as int).1,
{
    let ghost objs = listed_seq(objects@);
    let ghost idv = ids@.map_values(|s: String| s@);
    let ghost c0 = totals.total_items as int;
    let ghost b0 = totals.total_bytes as int;
    let mut out: Vec<CloneJobItem> = Vec::new();
    let mut i: usize = 0;
    assert(out@.map_values(|it: CloneJobItem| it@) =~= Seq::<ItemView>::empty());
    while i < objects.len()
        invariant
            objs == listed_seq(objects@),
            idv == ids@.map_values(|s: String| s@),
            ids@.len() == objects@.len(),
            i <= objects@.len(),
            forall|j: int| 0 <= j < objects@.len() ==> 0 <= (#[trigger] objects@[j])@.size,
            out@.map_values(|it: CloneJobItem| it@) == page_items(job_id@, source_prefix@, dest_prefix@, objs, idv, now as int, i as int),
            out@.len() == accepted_totals(objs, i as int).0,
            forall|j: int| 0 <= j < out@.len() ==> 0 <= (#[trigger] out@[j]).size,
            forall|j: int| 0 <= j < out@.len() ==> (#[trigger] out@[j]).created_at == now && out@[j].status == ItemStatus::Pending,
            totals.total_items == c0 + accepted_totals(objs, i as int).0,
            totals.total_bytes == b0 + accepted_totals(objs, i as int).1,
            0 <= c0,
            0 <= b0,
            c0 + objects@.len() <= i64::MAX,
            b0 + accepted_totals(objs, objects@.len() as int).1 <= i64::MAX,
        decreases objects@.len() - i,
    {
        proof {
            lemma_accepted_totals_bounds(objs, i as int + 1, objects@.len() as int);
        }
        let obj = &objects[i];
        let key: String = match &obj.key {
            Some(k) => k.clone(),
            None => String::new(),
        };
        let kc = chars_of(key.as_str());
        if kc.len() > 0 && kc[kc.len() - 1] != '/' {
            let size: i64 = match obj.size {
                Some(n) => n,
                None => 0,
            };
            let item = CloneJobItem {
                id: ids[i].clone(),
                job_id: to_string_of(job_id),
                source_key: key.clone(),
                dest_key: compute_dest_key(key.as_str(), source_prefix, dest_prefix),
                size,
                source_etag: clone_opt(&obj.etag),
                source_last_modified: clone_opt(&obj.last_modified),
                status: ItemStatus::Pending,
                error_message: None,
                retry_count: 0,
                created_at: now,
                updated_at: now,
            };
            let ghost before = out@;
            out.push(item);
            assert(out@.map_values(|it: CloneJobItem| it@) =~= before.map_values(|it: CloneJobItem| it@).push(
                item_of(job_id@, source_prefix@, dest_prefix@, objs[i as int], idv[i as int], now as int),
            ));
            totals.total_items = totals.total_items + 1;
            totals.total_bytes = totals.total_bytes + size;
        }
        i += 1;
    }
    proof {
        lemma_page_item_keys(job_id@, source_prefix@, dest_prefix@, objs, idv, now as int, objs.len() as int);
        assert(objs.take(objs.len() as int) =~= objs);
        assert(out@.map_values(|it: CloneJobItem| it@.source_key) =~= out@.map_values(|it: CloneJobItem| it@).map_values(
            |it: ItemView| it.source_key,
        ));
    }
    out
}

pub open spec fn listed_seq(v: Seq<ListedObject>) -> Seq<ListedView> {
    v.map_values(|o: ListedObject| o@)
}

/// Fresh time-ordered ids, one per listed object.
fn fresh_ids(n: usize) -> (r: Vec<String>)
    ensures
        r@.len() == n,
{
    let mut v: Vec<String> = Vec::new();
    let mut i: usize = 0;
    while i < n
        invariant
            i <= n,
            v@.len() == i,
        decreases n - i,
    {
        v.push(crate::clock::new_time_ordered_id());
        i += 1;
    }
    v
}

/// The items of one listing page, with fresh time-ordered ids: as
/// `enumerate_page`, whatever ids the generator gives.
pub fn enumerate_source_page(
    job_id: &str,
    source_prefix: &str,
    dest_prefix: &str,
    objects: &Vec<ListedObject>,
    now: i64,
    totals: &mut EnumerationTotals,
) -> (items: Vec<CloneJobItem>)
    requires
        forall|i: int| 0 <= i < objects@.len() ==> 0 <= (#[trigger] objects@[i])@.size,
        0 <= old(totals).total_items,
        0 <= old(totals).total_bytes,
        old(totals).total_items + objects@.len() <= i64::MAX,
        old(totals).total_bytes + accepted_totals(listed_seq(objects@), objects@.len() as int).1 <= i64::MAX,
    ensures
        exists|ids: Seq<Seq<char>>| ids.len() == objects@.len() && items@.map_values(|it: CloneJobItem| it@)
            == #[trigger] page_items(job_id@, source_prefix@, dest_prefix@, listed_seq(objects@), ids, now as int, objects@.len() as int),
        items@.map_values(|it: CloneJobItem| it@.source_key) == accepted_keys(listed_seq(objects@)),
        items@.len() == accepted_totals(listed_seq(objects@), objects@.len() as int).0,
        forall|i: int| 0 <= i < items@.len() ==> (#[trigger] items@[i]).created_at == now && items@[i].status == ItemStatus::Pending,
        final(totals).total_items == old(totals).total_items + accepted_totals(listed_seq(objects@), objects@.len() as int).0,
        final(totals).total_bytes == old(totals).total_bytes + accepted_totals(listed_seq(objects@), objects@.len() as int).1,
{
    let ids = fresh_ids(objects.len());
    let items = enumerate_page(job_id, source_prefix, dest_prefix, objects, &ids, now, totals);
    assert(ids@.map_values(|s: String| s@).len() == objects@.len());
    items
}

proof fn lemma_accepted_keys_concat(a: Seq<ListedView>, b: Seq<ListedView>)
    ensures
        accepted_keys(a + b) == accepted_keys(a) + accepted_keys(b),
    decreases b.len(),
{
    if b.len() == 0 {
        assert(a + b =~= a);
        assert(accepted_keys(a) + accepted_keys(b) =~= accepted_keys(a));
    } else {
        lemma_accepted_keys_concat(a, b.drop_last());
        assert((a + b).drop_last() =~= a + b.drop_last());
        assert((a + b).last() == b.last());
        assert(accepted_keys(a) + accepted_keys(b.drop_last()).push(b.last().key)
            =~= (accepted_keys(a) + accepted_keys(b.drop_last())).push(b.last().key));
    }
}

/// Enumeration resumes without losing or inventing keys. A listing is
/// `done + again + rest`: pages in `done` were checkpointed, items of
/// `again` were stored but its checkpoint was not, and the resumed run lists
/// `again + rest` from the last checkpoint. The source keys of the items of
/// both runs form the same set as those of one uninterrupted run, and with
/// nothing to re-list they form the same sequence.
pub proof fn lemma_enumeration_resume(done: Seq<ListedView>, again: Seq<ListedView>, rest: Seq<ListedView>)
    ensures
        (accepted_keys(done + again) + accepted_keys(again + rest)).to_set() == accepted_keys(
            done + again + rest,
        ).to_set(),
        accepted_keys(done) + accepted_keys(rest) == accepted_keys(done + rest),
{
    broadcast use vstd::seq_lib::group_seq_properties;

    lemma_accepted_keys_concat(done, again);
    lemma_accepted_keys_concat(again, rest);
    lemma_accepted_keys_concat(done + again, rest);
    lemma_accepted_keys_concat(done, rest);
    let kd = accepted_keys(done);
    let ka = accepted_keys(again);
    let kr = accepted_keys(rest);
    assert((kd + ka + (ka + kr)).to_set() =~= (kd + ka + kr).to_set()) by {
        assert forall|x: Seq<char>| (kd + ka + (ka + kr)).contains(x) <==> (kd + ka + kr).contains(x) by {
            if (kd + ka + (ka + kr)).contains(x) {
                let i = choose|i: int| 0 <= i < (kd + ka + (ka + kr)).len() && (kd + ka + (ka + kr))[i] == x;
                if i < kd.len() + ka.len() {
                    assert((kd + ka + kr)[i] == x);
                } else if i < kd.len() + ka.len() + ka.len() {
                    assert((kd + ka + kr)[i - ka.len()] == x);
                } else {
                    assert((kd + ka + kr)[i - ka.len()] == x);
                }
            }
            if (kd + ka + kr).contains(x) {
                let i = choose|i: int| 0 <= i < (kd + ka + kr).len() && (kd + ka + kr)[i] == x;
                if i < kd.len() + ka.len() {
                    assert((kd + ka + (ka + kr))[i] == x);
                } else {
                    assert((kd + ka + (ka + kr))[i + ka.len()] == x);
                }
            }
        }
    }
}

/// Resuming a job whose enumeration is complete and which has no pending
/// item does nothing but end it: the first batch is empty, so no row
/// changes, and the run ends `completed`.
pub proof fn lemma_idempotent_resume(rows: Seq<ItemView>)
    requires
        count_status(rows, ItemStatus::Pending) == 0,
    ensures
        pending_of(rows).len() == 0,
        final_status_of(count_status(rows, ItemStatus::Pending) as int) == JobStatus::Completed,
    decreases rows.len(),
{
    if rows.len() > 0 {
        lemma_idempotent_resume(rows.drop_last());
    }
}

/// Rows after setting, for each of the first `n` batch ids in turn, the
/// status and error given for it.
pub open spec fn settle_rows(
    rows: Seq<ItemView>,
    ids: Seq<Seq<char>>,
    outs: Seq<(ItemStatus, Option<Seq<char>>)>,
    now: int,
    n: int,
) -> Seq<ItemView>
    decreases n,
{
    if n <= 0 {
        rows
    } else {
        settle_rows(rows, ids, outs, now, n - 1).map_values(
            |r: ItemView| set_status_row(r, ids[n - 1], outs[n - 1].0, outs[n - 1].1, now),
        )
    }
}

pub open spec fn batch_ids(batch: Seq<CloneJobItem>) -> Seq<Seq<char>> {
    batch.map_values(|it: CloneJobItem| it.id@)
}

/// Marks every item of a batch `active` before its tasks start.
pub fn activate_batch(table: &mut ItemTable, batch: &Vec<CloneJobItem>, now: i64)
    requires
        old(table).wf(),
    ensures
        final(table).wf(),
        final(table)@ == settle_rows(
            old(table)@,
            batch_ids(batch@),
            Seq::new(batch@.len(), |i: int| (ItemStatus::Active, None::<Seq<char>>)),
            now as int,
            batch@.len() as int,
        ),
{
    let ghost rows0 = table@;
    let ghost outs = Seq::new(batch@.len(), |i: int| (ItemStatus::Active, None::<Seq<char>>));
    let mut i: usize = 0;
    while i < batch.len()
        invariant
            i <= batch@.len(),
            outs == Seq::new(batch@.len(), |i: int| (ItemStatus::Active, None::<Seq<char>>)),
            table.wf(),
            table@ == settle_rows(rows0, batch_ids(batch@), outs, now as int, i as int),
        decreases batch@.len() - i,
    {
        table.update_item_status(batch[i].id.as_str(), ItemStatus::Active, None, now);
        i += 1;
    }
}

/// Records how each task of a batch ended: `results[i]` belongs to
/// `batch[i]`. Completed and skipped items take that status; a failed copy
/// marks its item failed with the message; a lost task marks it failed with
/// a generic message, so no item of the batch stays active.
pub fn settle_batch(table: &mut ItemTable, batch: &Vec<CloneJobItem>, results: &Vec<ItemResult>, now: i64)
    requires
        old(table).wf(),
        results@.len() == batch@.len(),
    ensures
        final(table).wf(),
        final(table)@ == settle_rows(
            old(table)@,
            batch_ids(batch@),
            results@.map_values(|r: ItemResult| outcome_spec(r)),
            now as int,
            batch@.len() as int,
        ),
{
    let ghost rows0 = table@;
    let ghost outs = results@.map_values(|r: ItemResult| outcome_spec(r));
    let mut i: usize = 0;
    while i < batch.len()
        invariant
            i <= batch@.len(),
            results@.len() == batch@.len(),
            outs == results@.map_values(|r: ItemResult| outcome_spec(r)),
            table.wf(),
            table@ == settle_rows(rows0, batch_ids(batch@), outs, now as int, i as int),
        decreases batch@.len() - i,
    {
        let (st, err) = outcome_status(&results[i]);
        table.update_item_status(batch[i].id.as_str(), st, err, now);
        i += 1;
    }
}

/// A new clone job, pending, with nothing enumerated or copied yet. The
/// job copies server-side when both ends are the same target.
pub fn new_clone_job(
    id: String,
    source_target_id: String,
    source_bucket: String,
    source_prefix: String,
    dest_target_id: String,
    dest_bucket: String,
    dest_prefix: String,
    conflict_policy: ConflictPolicy,
    now: i64,
) -> (job: CloneJob)
    ensures
        job.id@ == id@,
        job.status == JobStatus::Pending,
        job.source_target_id@ == source_target_id@,
        job.source_bucket@ == source_bucket@,
        job.source_prefix@ == source_prefix@,
        job.dest_target_id@ == dest_target_id@,
        job.dest_bucket@ == dest_bucket@,
        job.dest_prefix@ == dest_prefix@,
        job.conflict_policy == conflict_policy,
        job.is_same_target == (source_target_id@ == dest_target_id@),
        job.enumeration_token is None,
        !job.enumeration_complete,
        job.total_items == 0 && job.completed_items == 0 && job.failed_items == 0 && job.skipped_items == 0,
        job.total_bytes == 0 && job.transferred_bytes == 0,
        job.created_at == now && job.updated_at == now,
        job.completed_at is None,
{
    let is_same_target = str_eq(source_target_id.as_str(), dest_target_id.as_str());
    CloneJob {
        id,
        status: JobStatus::Pending,
        source_target_id,
        source_bucket,
        source_prefix,
        dest_target_id,
        dest_bucket,
        dest_prefix,
        conflict_policy,
        is_same_target,
        enumeration_token: None,
        enumeration_complete: false,
        total_items: 0,
        completed_items: 0,
        failed_items: 0,
        skipped_items: 0,
        total_bytes: 0,
        transferred_bytes: 0,
        created_at: now,
        updated_at: now,
        completed_at: None,
    }
}

/// On process start, a job that was running or enumerating is paused (its
/// active items are then reset to pending); other jobs keep their status.
pub open spec fn recovered_status_of(s: JobStatus) -> JobStatus {
    if s == JobStatus::Running || s == JobStatus::Enumerating {
        JobStatus::Paused
    } else {
        s
    }
}

pub fn recovered_status(s: JobStatus) -> (r: JobStatus)
    ensures
        r == recovered_status_of(s),
{
    match s {
        JobStatus::Running | JobStatus::Enumerating => JobStatus::Paused,
        _ => s,
    }
}

/// Whether a job interrupted in `s` needs its active items reset.
pub fn needs_recovery(s: JobStatus) -> (r: bool)
    ensures
        r == (s == JobStatus::Running || s == JobStatus::Enumerating),
{
    match s {
        JobStatus::Running | JobStatus::Enumerating => true,
        _ => false,
    }
}

/// The status a job takes when its failed items are retried: a finished
/// job (completed or failed) is reopened as pending so a new run can take
/// it; a cancelled job stays cancelled, as cancellation is final.
pub open spec fn reopened_status_of(s: JobStatus) -> JobStatus {
    if s == JobStatus::Completed || s == JobStatus::Failed {
        JobStatus::Pending
    } else {
        s
    }
}

pub fn reopen_for_retry(s: JobStatus) -> (r: JobStatus)
    ensures
        r == reopened_status_of(s),
{
    match s {
        JobStatus::Completed | JobStatus::Failed => JobStatus::Pending,
        _ => s,
    }
}

} // verus!
