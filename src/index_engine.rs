//! The index engine's rules: which catalog rows a listing page yields,
//! including a folder row for every prefix seen for the first time.

use vstd::prelude::*;
use crate::keys::{
    folder_name, folder_name_of, last_segment, last_segment_of, parent_prefix_of,
    compute_parent_prefix, segment_start,
};
use crate::models::{
    clone_opt, opt_view, BucketIndexObject, BucketIndexState, ListedObject, ListedView, RowView,
};
use crate::status::IndexStatus;
use crate::text::{chars_of, ends_with_slash, last_index_before, slice_of, str_eq, to_string_of};

verus! {

/// Control signal of an index run.
#[derive(Clone, Copy, Debug, PartialEq, Eq, Structural)]
pub enum IndexSignal {
    Run,
    Cancel,
}

/// Whether the run must stop before its next page.
pub fn is_cancelled(signal: IndexSignal) -> (r: bool)
    ensures
        r == (signal == IndexSignal::Cancel),
{
    match signal {
        IndexSignal::Cancel => true,
        IndexSignal::Run => false,
    }
}

/// The set of strings a vector holds.
pub open spec fn seen(v: Seq<String>) -> Set<Seq<char>>
    decreases v.len(),
{
    if v.len() == 0 {
        Set::empty()
    } else {
        seen(v.drop_last()).insert(v.last()@)
    }
}

/// The folder prefixes one index run has already written.
pub struct PrefixSet {
    pub keys: Vec<String>,
}

impl View for PrefixSet {
    type V = Set<Seq<char>>;

    open spec fn view(&self) -> Set<Seq<char>> {
        seen(self.keys@)
    }
}

proof fn lemma_seen_member(v: Seq<String>, k: Seq<char>)
    ensures
        seen(v).contains(k) <==> exists|j: int| 0 <= j < v.len() && #[trigger] v[j]@ == k,
    decreases v.len(),
{
    if v.len() > 0 {
        lemma_seen_member(v.drop_last(), k);
        if seen(v.drop_last()).contains(k) {
            let j = choose|j: int| 0 <= j < v.drop_last().len() && #[trigger] v.drop_last()[j]@ == k;
            assert(v[j]@ == k);
        }
        if exists|j: int| 0 <= j < v.len() && #[trigger] v[j]@ == k {
            let j = choose|j: int| 0 <= j < v.len() && #[trigger] v[j]@ == k;
            if j < v.len() - 1 {
                assert(v.drop_last()[j]@ == k);
            }
        }
    }
}

impl PrefixSet {
    pub fn new() -> (r: PrefixSet)
        ensures
            r@ == Set::<Seq<char>>::empty(),
    {
        PrefixSet { keys: Vec::new() }
    }

    pub fn contains(&self, k: &str) -> (r: bool)
        ensures
            r == self@.contains(k@),
    {
        proof {
            lemma_seen_member(self.keys@, k@);
        }
        let mut i: usize = 0;
        while i < self.keys.len()
            invariant
                i <= self.keys@.len(),
                forall|j: int| 0 <= j < i ==> #[trigger] self.keys@[j]@ != k@,
            decreases self.keys@.len() - i,
        {
            if str_eq(self.keys[i].as_str(), k) {
                proof {
                    lemma_seen_member(self.keys@, k@);
                    assert(self.keys@[i as int]@ == k@);
                }
                return true;
            }
            i += 1;
        }
        false
    }

    pub fn insert(&mut self, k: String)
        ensures
            final(self)@ == old(self)@.insert(k@),
    {
        self.keys.push(k);
        assert(self.keys@.drop_last() =~= old(self).keys@);
    }
}

/// The row of the folder whose key is `k[..=i]` (where `k[i]` is `/`).
pub open spec fn folder_row_at(t: Seq<char>, b: Seq<char>, k: Seq<char>, i: int) -> RowView {
    let s = last_index_before(k, '/', i) + 1;
    RowView {
        target_id: t,
        bucket: b,
        key: k.subrange(0, i + 1),
        parent_prefix: k.subrange(0, s),
        name: k.subrange(s, i),
        is_folder: true,
        size: 0,
        last_modified: None,
        etag: None,
        storage_class: None,
    }
}

/// Folder rows for the ancestors of `k` found in `k[..n]` that are not yet
/// known, and the known set after them.
pub open spec fn ancestor_rows(
    t: Seq<char>,
    b: Seq<char>,
    known: Set<Seq<char>>,
    k: Seq<char>,
    n: int,
) -> (Seq<RowView>, Set<Seq<char>>)
    decreases n,
{
    if n <= 0 {
        (Seq::empty(), known)
    } else {
        let (r, s) = ancestor_rows(t, b, known, k, n - 1);
        if k[n - 1] == '/' && !s.contains(k.subrange(0, n)) {
            (r.push(folder_row_at(t, b, k, n - 1)), s.insert(k.subrange(0, n)))
        } else {
            (r, s)
        }
    }
}

/// The row of a real object.
pub open spec fn file_row(t: Seq<char>, b: Seq<char>, o: ListedView) -> RowView {
    RowView {
        target_id: t,
        bucket: b,
        key: o.key,
        parent_prefix: parent_prefix_of(o.key),
        name: last_segment_of(o.key),
        is_folder: false,
        size: o.size,
        last_modified: o.last_modified,
        etag: o.etag,
        storage_class: o.storage_class,
    }
}

/// The row of a folder-marker object (a key ending in `/`).
pub open spec fn marker_row(t: Seq<char>, b: Seq<char>, k: Seq<char>) -> RowView {
    RowView {
        target_id: t,
        bucket: b,
        key: k,
        parent_prefix: parent_prefix_of(k),
        name: folder_name_of(k),
        is_folder: true,
        size: 0,
        last_modified: None,
        etag: None,
        storage_class: None,
    }
}

/// Whether a listed object is a real object that the index counts.
pub open spec fn is_file_object(o: ListedView) -> bool {
    o.key.len() > 0 && !ends_with_slash(o.key)
}

/// The rows one listed object yields: nothing for an empty key; one folder
/// row for a new marker with a non-empty name; otherwise the new ancestor
/// folders followed by the object's own row.
pub open spec fn object_rows(t: Seq<char>, b: Seq<char>, known: Set<Seq<char>>, o: ListedView) -> (
    Seq<RowView>,
    Set<Seq<char>>,
) {
    let k = o.key;
    if k.len() == 0 {
        (Seq::empty(), known)
    } else if ends_with_slash(k) {
        if folder_name_of(k).len() > 0 && !known.contains(k) {
            (seq![marker_row(t, b, k)], known.insert(k))
        } else {
            (Seq::empty(), known)
        }
    } else {
        let (r, s) = ancestor_rows(t, b, known, k, k.len() as int);
        (r.push(file_row(t, b, o)), s)
    }
}

/// The rows of the first `n` objects of a page, in order, and the known set
/// after them.
pub open spec fn page_rows(t: Seq<char>, b: Seq<char>, known: Set<Seq<char>>, objs: Seq<ListedView>, n: int) -> (
    Seq<RowView>,
    Set<Seq<char>>,
)
    decreases n,
{
    if n <= 0 {
        (Seq::empty(), known)
    } else {
        let (r, s) = page_rows(t, b, known, objs, n - 1);
        let (r2, s2) = object_rows(t, b, s, objs[n - 1]);
        (r + r2, s2)
    }
}

/// Number and total size of the real objects among the first `n`.
pub open spec fn page_totals(objs: Seq<ListedView>, n: int) -> (int, int)
    decreases n,
{
    if n <= 0 {
        (0, 0)
    } else {
        let (c, s) = page_totals(objs, n - 1);
        if is_file_object(objs[n - 1]) {
            (c + 1, s + objs[n - 1].size)
        } else {
            (c, s)
        }
    }
}

pub open spec fn rows_view(v: Seq<BucketIndexObject>) -> Seq<RowView> {
    v.map_values(|r: BucketIndexObject| r@)
}

pub open spec fn listed_view(v: Seq<ListedObject>) -> Seq<ListedView> {
    v.map_values(|o: ListedObject| o@)
}

/// Running counts of an index run.
pub struct IndexTotals {
    pub indexed_objects: i64,
    pub total_size: i64,
}

fn push_row(out: &mut Vec<BucketIndexObject>, row: BucketIndexObject)
    ensures
        rows_view(final(out)@) == rows_view(old(out)@).push(row@),
{
    out.push(row);
    assert(rows_view(out@) =~= rows_view(old(out)@).push(row@));
}

/// Appends the new ancestor folders of `key` to `out`.
fn push_ancestors(
    target_id: &str,
    bucket: &str,
    key: &str,
    known: &mut PrefixSet,
    out: &mut Vec<BucketIndexObject>,
)
    ensures
        rows_view(final(out)@) == rows_view(old(out)@) + ancestor_rows(
            target_id@,
            bucket@,
            old(known)@,
            key@,
            key@.len() as int,
        ).0,
        final(known)@ == ancestor_rows(target_id@, bucket@, old(known)@, key@, key@.len() as int).1,
{
    let kc = chars_of(key);
    let n = kc.len();
    let ghost base = rows_view(out@);
    let ghost known0 = known@;
    let mut i: usize = 0;
    assert(rows_view(out@) =~= base + ancestor_rows(target_id@, bucket@, known0, key@, 0).0);
    while i < n
        invariant
            n == key@.len(),
            kc@ == key@,
            i <= n,
            rows_view(out@) == base + ancestor_rows(target_id@, bucket@, known0, key@, i as int).0,
            known@ == ancestor_rows(target_id@, bucket@, known0, key@, i as int).1,
        decreases n - i,
    {
        if kc[i] == '/' {
            let pre = slice_of(key, 0, i + 1);
            if !known.contains(pre.as_str()) {
                let s = segment_start(&kc, i);
                let row = BucketIndexObject {
                    target_id: to_string_of(target_id),
                    bucket: to_string_of(bucket),
                    key: pre.clone(),
                    parent_prefix: slice_of(key, 0, s),
                    name: slice_of(key, s, i),
                    is_folder: true,
                    size: 0,
                    last_modified: None,
                    etag: None,
                    storage_class: None,
                };
                push_row(out, row);
                known.insert(pre);
                assert(rows_view(out@) =~= base + ancestor_rows(target_id@, bucket@, known0, key@, i + 1).0);
            }
        }
        i += 1;
    }
}

/// Appends the rows of one listed object to `out`.
fn push_object_rows(
    target_id: &str,
    bucket: &str,
    obj: &ListedObject,
    known: &mut PrefixSet,
    out: &mut Vec<BucketIndexObject>,
)
    ensures
        rows_view(final(out)@) == rows_view(old(out)@) + object_rows(target_id@, bucket@, old(known)@, obj@).0,
        final(known)@ == object_rows(target_id@, bucket@, old(known)@, obj@).1,
{
    let key: String = match &obj.key {
        Some(k) => k.clone(),
        None => String::new(),
    };
    let kc = chars_of(key.as_str());
    if kc.len() == 0 {
        assert(rows_view(out@) =~= rows_view(out@) + Seq::<RowView>::empty());
        return;
    }
    if kc[kc.len() - 1] == '/' {
        let name = folder_name(key.as_str());
        let name_len = chars_of(name.as_str()).len();
        if name_len > 0 && !known.contains(key.as_str()) {
            let row = BucketIndexObject {
                target_id: to_string_of(target_id),
                bucket: to_string_of(bucket),
                key: key.clone(),
                parent_prefix: compute_parent_prefix(key.as_str()),
                name,
                is_folder: true,
                size: 0,
                last_modified: None,
                etag: None,
                storage_class: None,
            };
            push_row(out, row);
            known.insert(key);
            assert(rows_view(out@) =~= rows_view(old(out)@) + object_rows(target_id@, bucket@, old(known)@, obj@).0);
        } else {
            assert(rows_view(out@) =~= rows_view(out@) + Seq::<RowView>::empty());
        }
        return;
    }
    push_ancestors(target_id, bucket, key.as_str(), known, out);
    let ghost mid = rows_view(out@);
    let size: i64 = match obj.size {
        Some(n) => n,
        None => 0,
    };
    let row = BucketIndexObject {
        target_id: to_string_of(target_id),
        bucket: to_string_of(bucket),
        key: key.clone(),
        parent_prefix: compute_parent_prefix(key.as_str()),
        name: last_segment(key.as_str()),
        is_folder: false,
        size,
        last_modified: clone_opt(&obj.last_modified),
        etag: clone_opt(&obj.etag),
        storage_class: clone_opt(&obj.storage_class),
    };
    push_row(out, row);
    assert(rows_view(out@) =~= rows_view(old(out)@) + object_rows(target_id@, bucket@, old(known)@, obj@).0);
}

/// The catalog rows of one listing page, in listing order. Each real object
/// gets its row, preceded by a folder row for each of its ancestor prefixes
/// not yet in `known`; a folder marker gets a row the first time it is seen.
/// `known` then holds every prefix written so far, and `totals` counts the
/// real objects and their sizes.
pub fn index_page(
    target_id: &str,
    bucket: &str,
    objects: &Vec<ListedObject>,
    known: &mut PrefixSet,
    totals: &mut IndexTotals,
) -> (rows: Vec<BucketIndexObject>)
    requires
        forall|i: int| 0 <= i < objects@.len() ==> 0 <= (#[trigger] objects@[i])@.size,
        0 <= old(totals).indexed_objects,
        0 <= old(totals).total_size,
        old(totals).indexed_objects + objects@.len() <= i64::MAX,
        old(totals).total_size + page_totals(listed_view(objects@), objects@.len() as int).1 <= i64::MAX,
    ensures
        rows_view(rows@) == page_rows(
            target_id@,
            bucket@,
            old(known)@,
            listed_view(objects@),
            objects@.len() as int,
        ).0,
        final(known)@ == page_rows(
            target_id@,
            bucket@,
            old(known)@,
            listed_view(objects@),
            objects@.len() as int,
        ).1,
        final(totals).indexed_objects == old(totals).indexed_objects + page_totals(
            listed_view(objects@),
            objects@.len() as int,
        ).0,
        final(totals).total_size == old(totals).total_size + page_totals(
            listed_view(objects@),
            objects@.len() as int,
        ).1,
{
    let ghost objs = listed_view(objects@);
    let ghost known0 = known@;
    let ghost c0 = totals.indexed_objects as int;
    let ghost s0 = totals.total_size as int;
    let mut out: Vec<BucketIndexObject> = Vec::new();
    let mut i: usize = 0;
    assert(rows_view(out@) =~= Seq::<RowView>::empty());
    while i < objects.len()
        invariant
            objs == listed_view(objects@),
            i <= objects@.len(),
            forall|j: int| 0 <= j < objects@.len() ==> 0 <= (#[trigger] objects@[j])@.size,
            rows_view(out@) == page_rows(target_id@, bucket@, known0, objs, i as int).0,
            known@ == page_rows(target_id@, bucket@, known0, objs, i as int).1,
            totals.indexed_objects == c0 + page_totals(objs, i as int).0,
            totals.total_size == s0 + page_totals(objs, i as int).1,
            0 <= c0,
            0 <= s0,
            c0 + objects@.len() <= i64::MAX,
            s0 + page_totals(objs, objects@.len() as int).1 <= i64::MAX,
        decreases objects@.len() - i,
    {
        let obj = &objects[i];
        proof {
            lemma_page_totals_bounds(objs, i as int + 1, objects@.len() as int);
        }
        push_object_rows(target_id, bucket, obj, known, &mut out);
        let is_file = match &obj.key {
            Some(k) => {
                let kc = chars_of(k.as_str());
                kc.len() > 0 && kc[kc.len() - 1] != '/'
            },
            None => false,
        };
        if is_file {
            let size: i64 = match obj.size {
                Some(n) => n,
                None => 0,
            };
            totals.indexed_objects = totals.indexed_objects + 1;
            totals.total_size = totals.total_size + size;
        }
        i += 1;
    }
    out
}

/// Partial totals stay between 0 and the page's totals.
pub proof fn lemma_page_totals_bounds(objs: Seq<ListedView>, m: int, n: int)
    requires
        0 <= m <= n <= objs.len(),
        forall|j: int| 0 <= j < objs.len() ==> 0 <= (#[trigger] objs[j]).size,
    ensures
        0 <= page_totals(objs, m).0 <= m,
        0 <= page_totals(objs, m).1 <= page_totals(objs, n).1,
    decreases n,
{
    if n > m {
        lemma_page_totals_bounds(objs, m, n - 1);
    } else if m > 0 {
        lemma_page_totals_bounds(objs, m - 1, m - 1);
    }
}

/// Keys of the object rows, in order.
pub open spec fn file_keys(rows: Seq<RowView>) -> Seq<Seq<char>>
    decreases rows.len(),
{
    if rows.len() == 0 {
        Seq::empty()
    } else if rows.last().is_folder {
        file_keys(rows.drop_last())
    } else {
        file_keys(rows.drop_last()).push(rows.last().key)
    }
}

/// Keys of the folder rows, in order.
pub open spec fn folder_keys(rows: Seq<RowView>) -> Seq<Seq<char>>
    decreases rows.len(),
{
    if rows.len() == 0 {
        Seq::empty()
    } else if rows.last().is_folder {
        folder_keys(rows.drop_last()).push(rows.last().key)
    } else {
        folder_keys(rows.drop_last())
    }
}

/// The prefixes of `k` that end at one of its first `m` characters, a `/`.
pub open spec fn ancestors_upto(k: Seq<char>, m: int) -> Set<Seq<char>> {
    Set::new(|p: Seq<char>| exists|i: int| 0 <= i < m && k[i] == '/' && p == #[trigger] k.subrange(0, i + 1))
}

/// Every folder prefix of `k`: `a/` and `a/b/` for `a/b/c.txt`.
pub open spec fn ancestors_of(k: Seq<char>) -> Set<Seq<char>> {
    ancestors_upto(k, k.len() as int)
}

/// The folder prefixes of the first `n` listed keys.
pub open spec fn all_ancestors(objs: Seq<ListedView>, n: int) -> Set<Seq<char>>
    decreases n,
{
    if n <= 0 {
        Set::empty()
    } else {
        all_ancestors(objs, n - 1).union(ancestors_of(objs[n - 1].key))
    }
}

proof fn lemma_keys_concat(a: Seq<RowView>, b: Seq<RowView>)
    ensures
        file_keys(a + b) == file_keys(a) + file_keys(b),
        folder_keys(a + b) == folder_keys(a) + folder_keys(b),
    decreases b.len(),
{
    if b.len() == 0 {
        assert(a + b =~= a);
        assert(file_keys(a) + file_keys(b) =~= file_keys(a));
        assert(folder_keys(a) + folder_keys(b) =~= folder_keys(a));
    } else {
        lemma_keys_concat(a, b.drop_last());
        assert((a + b).drop_last() =~= a + b.drop_last());
        assert((a + b).last() == b.last());
        assert(file_keys(a) + file_keys(b.drop_last()).push(b.last().key)
            =~= (file_keys(a) + file_keys(b.drop_last())).push(b.last().key));
        assert(folder_keys(a) + folder_keys(b.drop_last()).push(b.last().key)
            =~= (folder_keys(a) + folder_keys(b.drop_last())).push(b.last().key));
    }
}

proof fn lemma_contains_concat(a: Seq<Seq<char>>, b: Seq<Seq<char>>, x: Seq<char>)
    ensures
        (a + b).contains(x) <==> (a.contains(x) || b.contains(x)),
{
    if a.contains(x) {
        let i = choose|i: int| 0 <= i < a.len() && a[i] == x;
        assert((a + b)[i] == x);
    }
    if b.contains(x) {
        let i = choose|i: int| 0 <= i < b.len() && b[i] == x;
        assert((a + b)[a.len() + i] == x);
    }
    if (a + b).contains(x) {
        let i = choose|i: int| 0 <= i < (a + b).len() && (a + b)[i] == x;
        if i < a.len() {
            assert(a[i] == x);
        } else {
            assert(b[i - a.len()] == x);
        }
    }
}

proof fn lemma_ancestor_rows(t: Seq<char>, b: Seq<char>, known: Set<Seq<char>>, k: Seq<char>, m: int)
    requires
        0 <= m <= k.len(),
    ensures
        file_keys(ancestor_rows(t, b, known, k, m).0) == Seq::<Seq<char>>::empty(),
        folder_keys(ancestor_rows(t, b, known, k, m).0).no_duplicates(),
        forall|x: Seq<char>| #[trigger] folder_keys(ancestor_rows(t, b, known, k, m).0).contains(x) ==> !known.contains(x),
        forall|x: Seq<char>| #[trigger] ancestor_rows(t, b, known, k, m).1.contains(x) <==> (known.contains(x)
            || folder_keys(ancestor_rows(t, b, known, k, m).0).contains(x)),
        ancestor_rows(t, b, known, k, m).1 == known.union(ancestors_upto(k, m)),
    decreases m,
{
    broadcast use vstd::seq_lib::lemma_seq_contains_after_push;

    if m == 0 {
        assert(known.union(ancestors_upto(k, 0)) =~= known);
    } else {
        lemma_ancestor_rows(t, b, known, k, m - 1);
        let (r, s) = ancestor_rows(t, b, known, k, m - 1);
        let p = k.subrange(0, m);
        if k[m - 1] == '/' && !s.contains(p) {
            let r2 = r.push(folder_row_at(t, b, k, m - 1));
            assert(r2.drop_last() =~= r);
            assert(folder_keys(r2) == folder_keys(r).push(p));
            assert(file_keys(r2) == file_keys(r));
            assert(s.insert(p) =~= known.union(ancestors_upto(k, m))) by {
                assert forall|x: Seq<char>| ancestors_upto(k, m).contains(x) implies s.insert(p).contains(x) by {
                    let i = choose|i: int| 0 <= i < m && k[i] == '/' && x == #[trigger] k.subrange(0, i + 1);
                    if i < m - 1 {
                        assert(ancestors_upto(k, m - 1).contains(x));
                    }
                }
                assert forall|x: Seq<char>| ancestors_upto(k, m - 1).contains(x) implies ancestors_upto(k, m).contains(x) by {
                    let i = choose|i: int| 0 <= i < m - 1 && k[i] == '/' && x == #[trigger] k.subrange(0, i + 1);
                }
                assert(ancestors_upto(k, m).contains(p));
            }
        } else {
            assert(s =~= known.union(ancestors_upto(k, m))) by {
                assert forall|x: Seq<char>| ancestors_upto(k, m).contains(x) implies s.contains(x) by {
                    let i = choose|i: int| 0 <= i < m && k[i] == '/' && x == #[trigger] k.subrange(0, i + 1);
                    if i < m - 1 {
                        assert(ancestors_upto(k, m - 1).contains(x));
                    }
                }
                assert forall|x: Seq<char>| ancestors_upto(k, m - 1).contains(x) implies ancestors_upto(k, m).contains(x) by {
                    let i = choose|i: int| 0 <= i < m - 1 && k[i] == '/' && x == #[trigger] k.subrange(0, i + 1);
                }
            }
        }
    }
}

proof fn lemma_full_index_prefix(t: Seq<char>, b: Seq<char>, objs: Seq<ListedView>, n: int)
    requires
        0 <= n <= objs.len(),
        forall|i: int| 0 <= i < objs.len() ==> is_file_object(#[trigger] objs[i]),
    ensures
        file_keys(page_rows(t, b, Set::empty(), objs, n).0) == objs.take(n).map_values(|o: ListedView| o.key),
        folder_keys(page_rows(t, b, Set::empty(), objs, n).0).no_duplicates(),
        forall|x: Seq<char>| #[trigger] page_rows(t, b, Set::empty(), objs, n).1.contains(x)
            <==> folder_keys(page_rows(t, b, Set::empty(), objs, n).0).contains(x),
        page_rows(t, b, Set::empty(), objs, n).1 == all_ancestors(objs, n),
    decreases n,
{
    if n == 0 {
        assert(objs.take(0).map_values(|o: ListedView| o.key) =~= Seq::<Seq<char>>::empty());
        assert(Set::<Seq<char>>::empty() =~= all_ancestors(objs, 0));
    } else {
        lemma_full_index_prefix(t, b, objs, n - 1);
        let (r, s) = page_rows(t, b, Set::empty(), objs, n - 1);
        let o = objs[n - 1];
        let k = o.key;
        lemma_ancestor_rows(t, b, s, k, k.len() as int);
        let (ar, as_) = ancestor_rows(t, b, s, k, k.len() as int);
        let r2 = ar.push(file_row(t, b, o));
        assert(r2.drop_last() =~= ar);
        assert(file_keys(r2) == file_keys(ar).push(k));
        assert(folder_keys(r2) == folder_keys(ar));
        lemma_keys_concat(r, r2);
        assert(objs.take(n).map_values(|o: ListedView| o.key)
            =~= objs.take(n - 1).map_values(|o: ListedView| o.key).push(k));
        assert(file_keys(r) + Seq::<Seq<char>>::empty().push(k) =~= file_keys(r).push(k));
        let fa = folder_keys(r);
        let fb = folder_keys(ar);
        assert forall|x: Seq<char>| #[trigger] (fa + fb).contains(x) <==> as_.contains(x) by {
            lemma_contains_concat(fa, fb, x);
        }
        assert((fa + fb).no_duplicates()) by {
            assert forall|i: int, j: int| 0 <= i < (fa + fb).len() && 0 <= j < (fa + fb).len() && i != j
                implies (fa + fb)[i] != (fa + fb)[j] by {
                if i < fa.len() && j >= fa.len() {
                    assert(fb.contains((fa + fb)[j]));
                    assert(fa.contains((fa + fb)[i]));
                } else if j < fa.len() && i >= fa.len() {
                    assert(fb.contains((fa + fb)[i]));
                    assert(fa.contains((fa + fb)[j]));
                }
            }
        }
    }
}

/// Indexing a listing of real objects (no key empty or ending in `/`),
/// starting from an empty catalog, writes exactly one object row per listed
/// key, in listing order, and exactly one folder row per distinct ancestor
/// prefix of those keys.
pub proof fn lemma_full_index_rows(t: Seq<char>, b: Seq<char>, objs: Seq<ListedView>)
    requires
        forall|i: int| 0 <= i < objs.len() ==> is_file_object(#[trigger] objs[i]),
    ensures
        file_keys(page_rows(t, b, Set::empty(), objs, objs.len() as int).0) == objs.map_values(
            |o: ListedView| o.key,
        ),
        folder_keys(page_rows(t, b, Set::empty(), objs, objs.len() as int).0).no_duplicates(),
        folder_keys(page_rows(t, b, Set::empty(), objs, objs.len() as int).0).to_set() == all_ancestors(
            objs,
            objs.len() as int,
        ),
{
    lemma_full_index_prefix(t, b, objs, objs.len() as int);
    assert(objs.take(objs.len() as int) =~= objs);
    assert(folder_keys(page_rows(t, b, Set::empty(), objs, objs.len() as int).0).to_set() =~= all_ancestors(
        objs,
        objs.len() as int,
    ));
}

/// How an index run starts from the persisted state.
pub struct IndexStart {
    /// The listing token to resume from (`None`: a full scan).
    pub token: Option<String>,
    /// Whether the catalog rows of the bucket are purged first.
    pub clear_objects: bool,
    pub totals: IndexTotals,
}

/// A persisted continuation token means resume, with the persisted
/// counts; otherwise the run is a full scan from zero over a purged
/// catalog.
pub fn index_start_plan(state: &Option<BucketIndexState>) -> (r: IndexStart)
    ensures
        match state {
            Some(s) => match s.continuation_token {
                Some(t) => opt_view(r.token) == Some(t@) && !r.clear_objects && r.totals.indexed_objects
                    == s.indexed_objects && r.totals.total_size == s.total_size,
                None => r.token is None && r.clear_objects && r.totals.indexed_objects == 0
                    && r.totals.total_size == 0,
            },
            None => r.token is None && r.clear_objects && r.totals.indexed_objects == 0 && r.totals.total_size == 0,
        },
{
    match state {
        Some(s) => match &s.continuation_token {
            Some(t) => IndexStart {
                token: Some(t.clone()),
                clear_objects: false,
                totals: IndexTotals { indexed_objects: s.indexed_objects, total_size: s.total_size },
            },
            None => IndexStart { token: None, clear_objects: true, totals: IndexTotals { indexed_objects: 0, total_size: 0 } },
        },
        None => IndexStart { token: None, clear_objects: true, totals: IndexTotals { indexed_objects: 0, total_size: 0 } },
    }
}

/// On process start an interrupted index run (`indexing`) becomes `idle`;
/// its token stays, so the next start resumes from it.
pub fn recovered_index_status(s: IndexStatus) -> (r: IndexStatus)
    ensures
        r == if s == IndexStatus::Indexing {
            IndexStatus::Idle
        } else {
            s
        },
{
    match s {
        IndexStatus::Indexing => IndexStatus::Idle,
        _ => s,
    }
}

proof fn lemma_page_rows_agree(t: Seq<char>, b: Seq<char>, known: Set<Seq<char>>, o1: Seq<ListedView>, o2: Seq<ListedView>, n: int)
    requires
        0 <= n <= o1.len(),
        n <= o2.len(),
        forall|i: int| 0 <= i < n ==> o1[i] == o2[i],
    ensures
        page_rows(t, b, known, o1, n) == page_rows(t, b, known, o2, n),
    decreases n,
{
    if n > 0 {
        lemma_page_rows_agree(t, b, known, o1, o2, n - 1);
    }
}

/// Indexing a listing page by page, with the known prefixes carried from
/// one page to the next, writes the same rows as indexing it in one piece;
/// so the full-index law holds of a run over any number of pages.
pub proof fn lemma_pages_compose(t: Seq<char>, b: Seq<char>, known: Set<Seq<char>>, x: Seq<ListedView>, y: Seq<ListedView>)
    ensures
        ({
            let first = page_rows(t, b, known, x, x.len() as int);
            let second = page_rows(t, b, first.1, y, y.len() as int);
            page_rows(t, b, known, x + y, (x + y).len() as int) == (first.0 + second.0, second.1)
        }),
    decreases y.len(),
{
    let first = page_rows(t, b, known, x, x.len() as int);
    if y.len() == 0 {
        assert(x + y =~= x);
        assert(first.0 + Seq::<RowView>::empty() =~= first.0);
    } else {
        let yd = y.drop_last();
        lemma_pages_compose(t, b, known, x, yd);
        let n = (x + y).len() as int;
        lemma_page_rows_agree(t, b, known, x + y, x + yd, n - 1);
        let second_d = page_rows(t, b, first.1, yd, yd.len() as int);
        lemma_page_rows_agree(t, b, first.1, y, yd, yd.len() as int);
        assert((x + y)[n - 1] == y[y.len() - 1]);
        let step = object_rows(t, b, second_d.1, y[y.len() - 1]);
        assert(first.0 + second_d.0 + step.0 =~= first.0 + (second_d.0 + step.0));
    }
}

} // verus!
