//! The item table of one clone job: the catalog operations the clone engine
//! relies on, stated over the sequence of rows in insertion order (which is
//! creation order, since item ids are time-ordered).

use vstd::prelude::*;
use crate::models::{clone_opt, opt_view, CloneJobItem, ItemView};
use crate::status::ItemStatus;
use crate::text::str_eq;

verus! {

pub open spec fn items_view(v: Seq<CloneJobItem>) -> Seq<ItemView> {
    v.map_values(|i: CloneJobItem| i@)
}

pub open spec fn has_id(rows: Seq<ItemView>, id: Seq<char>) -> bool {
    exists|j: int| 0 <= j < rows.len() && (#[trigger] rows[j]).id == id
}

/// Rows after inserting `batch`, ignoring each item whose id is already
/// present.
pub open spec fn insert_or_ignore(rows: Seq<ItemView>, batch: Seq<ItemView>) -> Seq<ItemView>
    decreases batch.len(),
{
    if batch.len() == 0 {
        rows
    } else {
        let r = insert_or_ignore(rows, batch.drop_last());
        if has_id(r, batch.last().id) {
            r
        } else {
            r.push(batch.last())
        }
    }
}

/// The pending rows, oldest first.
pub open spec fn pending_of(rows: Seq<ItemView>) -> Seq<ItemView>
    decreases rows.len(),
{
    if rows.len() == 0 {
        Seq::empty()
    } else if rows.last().status == ItemStatus::Pending {
        pending_of(rows.drop_last()).push(rows.last())
    } else {
        pending_of(rows.drop_last())
    }
}

/// Number of rows with status `st`.
pub open spec fn count_status(rows: Seq<ItemView>, st: ItemStatus) -> nat
    decreases rows.len(),
{
    if rows.len() == 0 {
        0
    } else {
        count_status(rows.drop_last(), st) + if rows.last().status == st {
            1nat
        } else {
            0nat
        }
    }
}

/// Total size of the completed rows.
pub open spec fn completed_bytes(rows: Seq<ItemView>) -> int
    decreases rows.len(),
{
    if rows.len() == 0 {
        0
    } else {
        completed_bytes(rows.drop_last()) + if rows.last().status == ItemStatus::Completed {
            rows.last().size
        } else {
            0
        }
    }
}

/// Total size of all rows.
pub open spec fn total_bytes(rows: Seq<ItemView>) -> int
    decreases rows.len(),
{
    if rows.len() == 0 {
        0
    } else {
        total_bytes(rows.drop_last()) + rows.last().size
    }
}

/// `r` with a new status, error message and update time.
pub open spec fn with_status(r: ItemView, st: ItemStatus, err: Option<Seq<char>>, now: int) -> ItemView {
    ItemView { status: st, error_message: err, updated_at: now, ..r }
}

/// A row after an `active`-to-`pending` reset.
pub open spec fn reset_active_row(r: ItemView, now: int) -> ItemView {
    if r.status == ItemStatus::Active {
        with_status(r, ItemStatus::Pending, r.error_message, now)
    } else {
        r
    }
}

/// A row after a `failed`-to-`pending` reset, which clears the error.
pub open spec fn reset_failed_row(r: ItemView, now: int) -> ItemView {
    if r.status == ItemStatus::Failed {
        with_status(r, ItemStatus::Pending, None, now)
    } else {
        r
    }
}

/// A row after the status of item `id` is set.
pub open spec fn set_status_row(r: ItemView, id: Seq<char>, st: ItemStatus, err: Option<Seq<char>>, now: int) -> ItemView {
    if r.id == id {
        with_status(r, st, err, now)
    } else {
        r
    }
}

/// Aggregate row counts of one job, by status.
pub struct ItemStatusCounts {
    pub completed: i64,
    pub failed: i64,
    pub skipped: i64,
    pub pending: i64,
    pub active: i64,
    pub total_transferred_bytes: i64,
}

/// The rows of one clone job.
pub struct ItemTable {
    pub items: Vec<CloneJobItem>,
}

impl View for ItemTable {
    type V = Seq<ItemView>;

    open spec fn view(&self) -> Seq<ItemView> {
        items_view(self.items@)
    }
}

/// Sizes are not negative and rows are in creation order (`created_at`
/// never decreases along the table), so table order is oldest first.
pub open spec fn rows_wf(rows: Seq<ItemView>) -> bool {
    &&& forall|i: int| 0 <= i < rows.len() ==> 0 <= (#[trigger] rows[i]).size
    &&& created_sorted(rows)
}

pub open spec fn created_sorted(rows: Seq<ItemView>) -> bool {
    forall|i: int, j: int| 0 <= i < j < rows.len() ==> (#[trigger] rows[i]).created_at <= (#[trigger] rows[j]).created_at
}

/// Every pending row, in table order, comes from the table.
proof fn lemma_pending_from_rows(rows: Seq<ItemView>)
    ensures
        forall|i: int| 0 <= i < pending_of(rows).len() ==> exists|j: int| 0 <= j < rows.len() && #[trigger] pending_of(rows)[i] == rows[j],
    decreases rows.len(),
{
    if rows.len() > 0 {
        let d = rows.drop_last();
        lemma_pending_from_rows(d);
        assert forall|i: int| 0 <= i < pending_of(rows).len() implies exists|j: int| 0 <= j < rows.len() && #[trigger] pending_of(rows)[i] == rows[j] by {
            if i < pending_of(d).len() {
                let j = choose|j: int| 0 <= j < d.len() && #[trigger] pending_of(d)[i] == d[j];
                assert(pending_of(rows)[i] == rows[j]);
            } else {
                assert(pending_of(rows)[i] == rows[rows.len() - 1]);
            }
        }
    }
}

/// The pending rows of a table in creation order are in creation order.
proof fn lemma_pending_sorted(rows: Seq<ItemView>)
    requires
        created_sorted(rows),
    ensures
        created_sorted(pending_of(rows)),
    decreases rows.len(),
{
    if rows.len() > 0 {
        let d = rows.drop_last();
        assert(created_sorted(d)) by {
            assert forall|i: int, j: int| 0 <= i < j < d.len() implies (#[trigger] d[i]).created_at <= (#[trigger] d[j]).created_at by {
                assert(d[i] == rows[i] && d[j] == rows[j]);
            }
        }
        lemma_pending_sorted(d);
        lemma_pending_from_rows(d);
        let p = pending_of(rows);
        if rows.last().status == ItemStatus::Pending {
            assert forall|i: int, j: int| 0 <= i < j < p.len() implies (#[trigger] p[i]).created_at <= (#[trigger] p[j]).created_at by {
                if j == p.len() - 1 {
                    let k = choose|k: int| 0 <= k < d.len() && #[trigger] pending_of(d)[i] == d[k];
                    assert(d[k] == rows[k]);
                } else {
                    assert(p[i] == pending_of(d)[i] && p[j] == pending_of(d)[j]);
                }
            }
        }
    }
}

proof fn lemma_counts_partition(rows: Seq<ItemView>)
    ensures
        count_status(rows, ItemStatus::Completed) + count_status(rows, ItemStatus::Failed) + count_status(
            rows,
            ItemStatus::Skipped,
        ) + count_status(rows, ItemStatus::Pending) + count_status(rows, ItemStatus::Active) == rows.len(),
    decreases rows.len(),
{
    if rows.len() > 0 {
        lemma_counts_partition(rows.drop_last());
    }
}

proof fn lemma_bytes_bounds(rows: Seq<ItemView>)
    requires
        forall|i: int| 0 <= i < rows.len() ==> 0 <= (#[trigger] rows[i]).size,
    ensures
        0 <= completed_bytes(rows) <= total_bytes(rows),
        count_status(rows, ItemStatus::Completed) <= rows.len(),
        count_status(rows, ItemStatus::Failed) <= rows.len(),
        count_status(rows, ItemStatus::Skipped) <= rows.len(),
        count_status(rows, ItemStatus::Pending) <= rows.len(),
        count_status(rows, ItemStatus::Active) <= rows.len(),
    decreases rows.len(),
{
    if rows.len() > 0 {
        lemma_bytes_bounds(rows.drop_last());
    }
}

/// Whatever the rows, the five status counts add up to the number of rows,
/// and the transferred bytes are the sizes of the completed rows: the
/// aggregates written after each batch are consistent.
pub proof fn lemma_aggregate_consistency(rows: Seq<ItemView>, counts: ItemStatusCounts)
    requires
        counts.completed == count_status(rows, ItemStatus::Completed),
        counts.failed == count_status(rows, ItemStatus::Failed),
        counts.skipped == count_status(rows, ItemStatus::Skipped),
        counts.pending == count_status(rows, ItemStatus::Pending),
        counts.active == count_status(rows, ItemStatus::Active),
        counts.total_transferred_bytes == completed_bytes(rows),
    ensures
        counts.completed + counts.failed + counts.skipped + counts.pending + counts.active == rows.len(),
        counts.total_transferred_bytes == completed_bytes(rows),
{
    lemma_counts_partition(rows);
}

impl ItemTable {
    pub fn new() -> (r: ItemTable)
        ensures
            r@ == Seq::<ItemView>::empty(),
    {
        let r = ItemTable { items: Vec::new() };
        assert(r@ =~= Seq::<ItemView>::empty());
        r
    }

    pub open spec fn wf(&self) -> bool {
        rows_wf(self@)
    }

    /// Index of the row with id `id`, if any.
    pub fn find(&self, id: &str) -> (r: Option<usize>)
        ensures
            match r {
                Some(j) => j < self@.len() && self@[j as int].id == id@,
                None => !has_id(self@, id@),
            },
    {
        let mut i: usize = 0;
        while i < self.items.len()
            invariant
                i <= self.items@.len(),
                forall|j: int| 0 <= j < i ==> (#[trigger] self.items@[j])@.id != id@,
            decreases self.items@.len() - i,
        {
            if str_eq(self.items[i].id.as_str(), id) {
                return Some(i);
            }
            i += 1;
        }
        assert forall|j: int| 0 <= j < self@.len() implies (#[trigger] self@[j]).id != id@ by {
            assert(self@[j] == self.items@[j]@);
        }
        None
    }

    /// Inserts a page of items atomically; an item whose id is already
    /// present is ignored.
    pub fn insert_items_batch(&mut self, batch: Vec<CloneJobItem>)
        requires
            old(self).wf(),
            forall|i: int| 0 <= i < batch@.len() ==> 0 <= (#[trigger] batch@[i]).size,
            created_sorted(items_view(batch@)),
            forall|k: int, j: int| 0 <= k < old(self)@.len() && 0 <= j < batch@.len() ==> (#[trigger] old(self)@[k]).created_at
                <= (#[trigger] batch@[j]).created_at,
        ensures
            final(self).wf(),
            final(self)@ == insert_or_ignore(old(self)@, items_view(batch@)),
    {
        let ghost b = items_view(batch@);
        let ghost rows0 = self@;
        let mut i: usize = 0;
        assert(b.subrange(0, 0) =~= Seq::<ItemView>::empty());
        while i < batch.len()
            invariant
                b == items_view(batch@),
                i <= batch@.len(),
                forall|j: int| 0 <= j < batch@.len() ==> 0 <= (#[trigger] batch@[j]).size,
                created_sorted(b),
                forall|k: int, j: int| 0 <= k < self@.len() && i <= j < batch@.len() ==> (#[trigger] self@[k]).created_at
                    <= (#[trigger] batch@[j]).created_at,
                self.wf(),
                self@ == insert_or_ignore(rows0, b.subrange(0, i as int)),
            decreases batch@.len() - i,
        {
            assert(b.subrange(0, i + 1).drop_last() =~= b.subrange(0, i as int));
            let item = batch[i].duplicate();
            match self.find(item.id.as_str()) {
                Some(_) => {},
                None => {
                    let ghost before = self@;
                    self.items.push(item);
                    assert(self@ =~= before.push(b[i as int]));
                    assert(b[i as int] == batch@[i as int]@);
                    assert forall|k: int, j: int| 0 <= k < self@.len() && i + 1 <= j < batch@.len() implies (#[trigger] self@[k]).created_at
                        <= (#[trigger] batch@[j]).created_at by {
                        assert(b[j] == batch@[j]@);
                        if k == before.len() {
                            assert(b[i as int].created_at <= b[j].created_at);
                        } else {
                            assert(self@[k] == before[k]);
                        }
                    }
                    assert forall|x: int, y: int| 0 <= x < y < self@.len() implies (#[trigger] self@[x]).created_at <= (#[trigger] self@[y]).created_at by {
                        if y == before.len() {
                            assert(self@[x] == before[x]);
                        } else {
                            assert(self@[x] == before[x] && self@[y] == before[y]);
                        }
                    }
                },
            }
            i += 1;
        }
        assert(b.subrange(0, batch@.len() as int) =~= b);
    }

    /// Up to `limit` pending items, oldest first.
    pub fn list_pending_items(&self, limit: usize) -> (r: Vec<CloneJobItem>)
        requires
            self.wf(),
        ensures
            r@.len() == if pending_of(self@).len() < limit {
                pending_of(self@).len()
            } else {
                limit as nat
            },
            items_view(r@) == pending_of(self@).take(r@.len() as int),
            forall|i: int, j: int| 0 <= i < j < r@.len() ==> (#[trigger] r@[i]).created_at <= (#[trigger] r@[j]).created_at,
            forall|k: int| r@.len() <= k < pending_of(self@).len() && r@.len() > 0 ==> r@[r@.len() - 1].created_at
                <= (#[trigger] pending_of(self@)[k]).created_at,
    {
        let ghost rows = self@;
        let mut out: Vec<CloneJobItem> = Vec::new();
        let mut i: usize = 0;
        assert(rows.take(0) =~= Seq::<ItemView>::empty());
        assert(items_view(out@) =~= Seq::<ItemView>::empty());
        while i < self.items.len() && out.len() < limit
            invariant
                rows == self@,
                rows_wf(rows),
                i <= self.items@.len(),
                out@.len() <= limit,
                items_view(out@) == pending_of(rows.take(i as int)),
            decreases self.items@.len() - i,
        {
            assert(rows.take(i + 1).drop_last() =~= rows.take(i as int));
            if self.items[i].status == ItemStatus::Pending {
                let ghost before = out@;
                out.push(self.items[i].duplicate());
                assert(items_view(out@) =~= items_view(before).push(rows[i as int]));
            }
            i += 1;
        }
        proof {
            lemma_pending_prefix(rows, i as int, rows.len() as int);
            assert(rows.take(rows.len() as int) =~= rows);
            let p = pending_of(rows);
            assert(p.take(out@.len() as int) =~= items_view(out@));
            lemma_pending_sorted(rows);
            assert forall|a: int, b: int| 0 <= a < b < out@.len() implies (#[trigger] out@[a]).created_at <= (#[trigger] out@[b]).created_at by {
                assert(items_view(out@)[a] == out@[a]@ && items_view(out@)[b] == out@[b]@);
                assert(p.take(out@.len() as int)[a] == p[a] && p.take(out@.len() as int)[b] == p[b]);
            }
            assert forall|k: int| out@.len() <= k < p.len() && out@.len() > 0 implies out@[out@.len() - 1].created_at
                <= (#[trigger] p[k]).created_at by {
                let l = out@.len() - 1;
                assert(items_view(out@)[l] == out@[l]@);
                assert(p.take(out@.len() as int)[l] == p[l]);
            }
        }
        out
    }

    /// Sets the status and error message of item `id`, stamping `now`.
    pub fn update_item_status(&mut self, id: &str, status: ItemStatus, error_message: Option<String>, now: i64)
        requires
            old(self).wf(),
        ensures
            final(self).wf(),
            final(self)@ == old(self)@.map_values(
                |r: ItemView| set_status_row(r, id@, status, opt_view(error_message), now as int),
            ),
    {
        let ghost rows0 = self@;
        let ghost err = opt_view(error_message);
        let mut i: usize = 0;
        while i < self.items.len()
            invariant
                rows0.len() == self@.len(),
                i <= self@.len(),
                rows_wf(rows0),
                err == opt_view(error_message),
                forall|k: int| 0 <= k < i ==> #[trigger] self@[k] == set_status_row(rows0[k], id@, status, err, now as int),
                forall|k: int| i <= k < rows0.len() ==> #[trigger] self@[k] == rows0[k],
            decreases self@.len() - i,
        {
            assert(self@[i as int] == rows0[i as int]);
            assert(self.items@[i as int]@ == rows0[i as int]);
            let ghost before = self@;
            if str_eq(self.items[i].id.as_str(), id) {
                let mut item = self.items[i].duplicate();
                item.status = status;
                item.error_message = clone_opt(&error_message);
                item.updated_at = now;
                assert(item@ == set_status_row(rows0[i as int], id@, status, err, now as int));
                self.items.set(i, item);
                assert(self@ =~= before.update(i as int, set_status_row(rows0[i as int], id@, status, err, now as int)));
            }
            i += 1;
        }
        assert(self@ =~= rows0.map_values(|r: ItemView| set_status_row(r, id@, status, opt_view(error_message), now as int)));
        assert forall|a: int, b: int| 0 <= a < b < self@.len() implies (#[trigger] self@[a]).created_at <= (#[trigger] self@[b]).created_at by {
            assert(self@[a].created_at == rows0[a].created_at && self@[b].created_at == rows0[b].created_at);
        }
    }

    /// Moves every `active` item back to `pending` (on resume, or on start
    /// after a crash). Returns how many moved.
    pub fn reset_active_items(&mut self, now: i64) -> (n: i64)
        requires
            old(self).wf(),
            old(self)@.len() <= i64::MAX,
        ensures
            final(self).wf(),
            final(self)@ == old(self)@.map_values(|r: ItemView| reset_active_row(r, now as int)),
            n == count_status(old(self)@, ItemStatus::Active),
            count_status(final(self)@, ItemStatus::Active) == 0,
    {
        let ghost rows0 = self@;
        let mut n: i64 = 0;
        let mut i: usize = 0;
        while i < self.items.len()
            invariant
                rows0.len() == self@.len(),
                rows0.len() <= i64::MAX,
                i <= self@.len(),
                rows_wf(rows0),
                forall|k: int| 0 <= k < i ==> #[trigger] self@[k] == reset_active_row(rows0[k], now as int),
                forall|k: int| i <= k < rows0.len() ==> #[trigger] self@[k] == rows0[k],
                n == count_status(rows0.take(i as int), ItemStatus::Active),
                n <= i,
            decreases self@.len() - i,
        {
            assert(rows0.take(i + 1).drop_last() =~= rows0.take(i as int));
            assert(self@[i as int] == rows0[i as int]);
            assert(self.items@[i as int]@ == rows0[i as int]);
            let ghost before = self@;
            if self.items[i].status == ItemStatus::Active {
                let mut item = self.items[i].duplicate();
                item.status = ItemStatus::Pending;
                item.updated_at = now;
                assert(item@ == reset_active_row(rows0[i as int], now as int));
                self.items.set(i, item);
                assert(self@ =~= before.update(i as int, reset_active_row(rows0[i as int], now as int)));
                n = n + 1;
            }
            assert(rows0.take(i + 1).last() == rows0[i as int]);
            i += 1;
        }
        assert(self@ =~= rows0.map_values(|r: ItemView| reset_active_row(r, now as int)));
        assert(rows0.take(i as int) =~= rows0);
        proof {
            lemma_no_active_after_reset(self@);
            assert forall|a: int, b: int| 0 <= a < b < self@.len()
                implies (#[trigger] self@[a]).created_at <= (#[trigger] self@[b]).created_at by {
                assert(self@[a].created_at == rows0[a].created_at);
                assert(self@[b].created_at == rows0[b].created_at);
            }
        }
        n
    }

    /// Moves every `failed` item back to `pending` and clears its error
    /// (retry). Returns how many moved.
    pub fn reset_failed_items(&mut self, now: i64) -> (n: i64)
        requires
            old(self).wf(),
            old(self)@.len() <= i64::MAX,
        ensures
            final(self).wf(),
            final(self)@ == old(self)@.map_values(|r: ItemView| reset_failed_row(r, now as int)),
            n == count_status(old(self)@, ItemStatus::Failed),
    {
        let ghost rows0 = self@;
        let mut n: i64 = 0;
        let mut i: usize = 0;
        while i < self.items.len()
            invariant
                rows0.len() == self@.len(),
                rows0.len() <= i64::MAX,
                i <= self@.len(),
                rows_wf(rows0),
                forall|k: int| 0 <= k < i ==> #[trigger] self@[k] == reset_failed_row(rows0[k], now as int),
                forall|k: int| i <= k < rows0.len() ==> #[trigger] self@[k] == rows0[k],
                n == count_status(rows0.take(i as int), ItemStatus::Failed),
                n <= i,
            decreases self@.len() - i,
        {
            assert(rows0.take(i + 1).drop_last() =~= rows0.take(i as int));
            assert(self@[i as int] == rows0[i as int]);
            assert(self.items@[i as int]@ == rows0[i as int]);
            let ghost before = self@;
            if self.items[i].status == ItemStatus::Failed {
                let mut item = self.items[i].duplicate();
                item.status = ItemStatus::Pending;
                item.error_message = None;
                item.updated_at = now;
                assert(item@ == reset_failed_row(rows0[i as int], now as int));
                self.items.set(i, item);
                assert(self@ =~= before.update(i as int, reset_failed_row(rows0[i as int], now as int)));
                n = n + 1;
            }
            assert(rows0.take(i + 1).last() == rows0[i as int]);
            i += 1;
        }
        assert(self@ =~= rows0.map_values(|r: ItemView| reset_failed_row(r, now as int)));
        assert(rows0.take(i as int) =~= rows0);
        proof {
            assert forall|a: int, b: int| 0 <= a < b < self@.len()
                implies (#[trigger] self@[a]).created_at <= (#[trigger] self@[b]).created_at by {
                assert(self@[a].created_at == rows0[a].created_at);
                assert(self@[b].created_at == rows0[b].created_at);
            }
        }
        n
    }

    /// Counts the rows by status, with the total size of the completed ones.
    pub fn count_items_by_status(&self) -> (r: ItemStatusCounts)
        requires
            self.wf(),
            total_bytes(self@) <= i64::MAX,
            self@.len() <= i64::MAX,
        ensures
            r.completed == count_status(self@, ItemStatus::Completed),
            r.failed == count_status(self@, ItemStatus::Failed),
            r.skipped == count_status(self@, ItemStatus::Skipped),
            r.pending == count_status(self@, ItemStatus::Pending),
            r.active == count_status(self@, ItemStatus::Active),
            r.total_transferred_bytes == completed_bytes(self@),
            r.completed + r.failed + r.skipped + r.pending + r.active == self@.len(),
    {
        let ghost rows = self@;
        let mut c = ItemStatusCounts {
            completed: 0,
            failed: 0,
            skipped: 0,
            pending: 0,
            active: 0,
            total_transferred_bytes: 0,
        };
        let mut i: usize = 0;
        while i < self.items.len()
            invariant
                rows == self@,
                rows_wf(rows),
                total_bytes(rows) <= i64::MAX,
                rows.len() <= i64::MAX,
                i <= rows.len(),
                c.completed == count_status(rows.take(i as int), ItemStatus::Completed),
                c.failed == count_status(rows.take(i as int), ItemStatus::Failed),
                c.skipped == count_status(rows.take(i as int), ItemStatus::Skipped),
                c.pending == count_status(rows.take(i as int), ItemStatus::Pending),
                c.active == count_status(rows.take(i as int), ItemStatus::Active),
                c.total_transferred_bytes == completed_bytes(rows.take(i as int)),
            decreases rows.len() - i,
        {
            let ghost next = rows.take(i + 1);
            assert(next.drop_last() =~= rows.take(i as int));
            proof {
                lemma_bytes_bounds(next);
                lemma_total_bytes_prefix(rows, i + 1);
            }
            let item = &self.items[i];
            match item.status {
                ItemStatus::Completed => {
                    c.completed = c.completed + 1;
                    c.total_transferred_bytes = c.total_transferred_bytes + item.size;
                },
                ItemStatus::Failed => {
                    c.failed = c.failed + 1;
                },
                ItemStatus::Skipped => {
                    c.skipped = c.skipped + 1;
                },
                ItemStatus::Pending => {
                    c.pending = c.pending + 1;
                },
                ItemStatus::Active => {
                    c.active = c.active + 1;
                },
            }
            i += 1;
        }
        assert(rows.take(i as int) =~= rows);
        proof {
            lemma_counts_partition(rows);
        }
        c
    }
}

proof fn lemma_total_bytes_prefix(rows: Seq<ItemView>, n: int)
    requires
        0 <= n <= rows.len(),
        forall|i: int| 0 <= i < rows.len() ==> 0 <= (#[trigger] rows[i]).size,
    ensures
        total_bytes(rows.take(n)) <= total_bytes(rows),
    decreases rows.len() - n,
{
    if n < rows.len() {
        lemma_total_bytes_prefix(rows, n + 1);
        assert(rows.take(n + 1).drop_last() =~= rows.take(n));
    } else {
        assert(rows.take(n) =~= rows);
    }
}

proof fn lemma_no_active_after_reset(rows: Seq<ItemView>)
    requires
        forall|k: int| 0 <= k < rows.len() ==> (#[trigger] rows[k]).status != ItemStatus::Active,
    ensures
        count_status(rows, ItemStatus::Active) == 0,
    decreases rows.len(),
{
    if rows.len() > 0 {
        lemma_no_active_after_reset(rows.drop_last());
    }
}

/// The pending rows of a prefix are a prefix of the pending rows.
proof fn lemma_pending_prefix(rows: Seq<ItemView>, i: int, n: int)
    requires
        0 <= i <= n <= rows.len(),
    ensures
        pending_of(rows.take(i)).is_prefix_of(pending_of(rows.take(n))),
        pending_of(rows.take(i)).len() <= pending_of(rows.take(n)).len(),
    decreases n - i,
{
    if i < n {
        lemma_pending_prefix(rows, i, n - 1);
        assert(rows.take(n).drop_last() =~= rows.take(n - 1));
    }
    if n == rows.len() {
        assert(rows.take(n) =~= rows);
    }
}

proof fn lemma_fresh_insert(rows: Seq<ItemView>, batch: Seq<ItemView>)
    requires
        forall|i: int| 0 <= i < batch.len() ==> !has_id(rows, #[trigger] batch[i].id),
        forall|i: int, j: int| 0 <= i < batch.len() && 0 <= j < batch.len() && i != j ==> (#[trigger] batch[i]).id != (#[trigger] batch[j]).id,
    ensures
        insert_or_ignore(rows, batch) == rows + batch,
    decreases batch.len(),
{
    if batch.len() == 0 {
        assert(rows + batch =~= rows);
    } else {
        let bd = batch.drop_last();
        assert forall|i: int, j: int| 0 <= i < bd.len() && 0 <= j < bd.len() && i != j implies (#[trigger] bd[i]).id != (#[trigger] bd[j]).id by {
            assert(bd[i] == batch[i] && bd[j] == batch[j]);
        }
        assert forall|i: int| 0 <= i < bd.len() implies !has_id(rows, #[trigger] bd[i].id) by {
            assert(bd[i] == batch[i]);
        }
        lemma_fresh_insert(rows, bd);
        let last = batch.last();
        let r = rows + bd;
        if has_id(r, last.id) {
            let j = choose|j: int| 0 <= j < r.len() && (#[trigger] r[j]).id == last.id;
            if j < rows.len() {
                assert(rows[j].id == last.id);
                assert(has_id(rows, batch[batch.len() - 1].id));
            } else {
                assert(batch[j - rows.len()].id == batch[batch.len() - 1].id);
            }
        }
        assert(r.push(last) =~= rows + batch);
    }
}

proof fn lemma_counts_concat(a: Seq<ItemView>, b: Seq<ItemView>, st: ItemStatus)
    ensures
        count_status(a + b, st) == count_status(a, st) + count_status(b, st),
    decreases b.len(),
{
    if b.len() == 0 {
        assert(a + b =~= a);
    } else {
        lemma_counts_concat(a, b.drop_last(), st);
        assert((a + b).drop_last() =~= a + b.drop_last());
    }
}

proof fn lemma_all_pending(b: Seq<ItemView>)
    requires
        forall|i: int| 0 <= i < b.len() ==> (#[trigger] b[i]).status == ItemStatus::Pending,
    ensures
        count_status(b, ItemStatus::Pending) == b.len(),
        count_status(b, ItemStatus::Completed) == 0,
        count_status(b, ItemStatus::Failed) == 0,
        count_status(b, ItemStatus::Skipped) == 0,
        count_status(b, ItemStatus::Active) == 0,
        completed_bytes(b) == 0,
    decreases b.len(),
{
    if b.len() > 0 {
        lemma_all_pending(b.drop_last());
    }
}

proof fn lemma_completed_bytes_concat(a: Seq<ItemView>, b: Seq<ItemView>)
    ensures
        completed_bytes(a + b) == completed_bytes(a) + completed_bytes(b),
    decreases b.len(),
{
    if b.len() == 0 {
        assert(a + b =~= a);
    } else {
        lemma_completed_bytes_concat(a, b.drop_last());
        assert((a + b).drop_last() =~= a + b.drop_last());
    }
}

/// Counts follow the job's total. If the job's rows number `total_items`
/// and a page of new pending items with fresh, distinct ids is stored while
/// `total_items` grows by the page's size, then the rows number the new
/// total, the five status counts of the rows add up to it, the pending
/// count grows by the page's size, and the transferred bytes do not change.
pub proof fn lemma_counts_follow_total(rows: Seq<ItemView>, page: Seq<ItemView>, total_items: int)
    requires
        rows.len() == total_items,
        forall|i: int| 0 <= i < page.len() ==> !has_id(rows, #[trigger] page[i].id),
        forall|i: int, j: int| 0 <= i < page.len() && 0 <= j < page.len() && i != j ==> (#[trigger] page[i]).id != (#[trigger] page[j]).id,
        forall|i: int| 0 <= i < page.len() ==> (#[trigger] page[i]).status == ItemStatus::Pending,
    ensures
        ({
            let after = insert_or_ignore(rows, page);
            &&& after.len() == total_items + page.len()
            &&& count_status(after, ItemStatus::Completed) + count_status(after, ItemStatus::Failed) + count_status(
                after,
                ItemStatus::Skipped,
            ) + count_status(after, ItemStatus::Pending) + count_status(after, ItemStatus::Active) == total_items
                + page.len()
            &&& count_status(after, ItemStatus::Pending) == count_status(rows, ItemStatus::Pending) + page.len()
            &&& completed_bytes(after) == completed_bytes(rows)
        }),
{
    lemma_fresh_insert(rows, page);
    let after = rows + page;
    lemma_counts_partition(after);
    lemma_all_pending(page);
    lemma_counts_concat(rows, page, ItemStatus::Pending);
    lemma_completed_bytes_concat(rows, page);
}

impl ItemTable {
    /// Whether the table is valid: no negative size, rows in creation order.
    pub fn is_valid(&self) -> (r: bool)
        ensures
            r == self.wf(),
    {
        let mut i: usize = 0;
        while i < self.items.len()
            invariant
                i <= self@.len(),
                forall|k: int| 0 <= k < i ==> 0 <= (#[trigger] self@[k]).size,
                forall|a: int, b: int| 0 <= a < b < i ==> (#[trigger] self@[a]).created_at <= (#[trigger] self@[b]).created_at,
            decreases self@.len() - i,
        {
            assert(self@[i as int] == self.items@[i as int]@);
            if self.items[i].size < 0 {
                return false;
            }
            if i > 0 {
                assert(self@[i - 1] == self.items@[i - 1]@);
                if self.items[i - 1].created_at > self.items[i].created_at {
                    return false;
                }
            }
            assert forall|a: int, b: int| 0 <= a < b < i + 1 implies (#[trigger] self@[a]).created_at <= (#[trigger] self@[b]).created_at by {
                if b == i && a < i - 1 {
                    assert(self@[a].created_at <= self@[i - 1].created_at);
                }
            }
            i += 1;
        }
        true
    }

    /// The creation time for new rows: `now`, or the newest row's time if
    /// the clock reads earlier, so the table stays in creation order.
    pub fn stamp_after(&self, now: i64) -> (r: i64)
        requires
            self.wf(),
        ensures
            r >= now,
            forall|k: int| 0 <= k < self@.len() ==> (#[trigger] self@[k]).created_at <= r,
            (self@.len() == 0 || self@.last().created_at <= now) ==> r == now,
    {
        let n = self.items.len();
        if n == 0 {
            return now;
        }
        assert(self@[n - 1] == self.items@[n - 1]@);
        let last = self.items[n - 1].created_at;
        if last > now {
            last
        } else {
            now
        }
    }
}

} // verus!
