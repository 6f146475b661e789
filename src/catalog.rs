//! Queries over the index catalog: browsing one folder level in a chosen
//! order, one page at a time.

use vstd::prelude::*;
use crate::gateway::{arrange, arranged, entries_view};
use crate::index_engine::rows_view;
use crate::models::{clone_opt, BucketIndexObject, EntryView, RowView, S3ObjectEntry, S3ObjectListPage, opt_view};
use crate::order::{is_permutation, keys_view, sort_order, sorted_by, KeyView, SortKey};
use crate::text::{chars_of, str_eq};
use crate::gateway::ascii_fold;

verus! {

/// The column a browse orders by (after folders-first).
#[derive(Clone, Copy, Debug, PartialEq, Eq, Structural)]
pub enum SortField {
    Name,
    Size,
    LastModified,
    StorageClass,
}

/// The direction of that column.
#[derive(Clone, Copy, Debug, PartialEq, Eq, Structural)]
pub enum SortDir {
    Asc,
    Desc,
}

pub open spec fn sort_field_of(name: Seq<char>) -> SortField {
    if name == "size"@ {
        SortField::Size
    } else if name == "lastModified"@ {
        SortField::LastModified
    } else if name == "storageClass"@ {
        SortField::StorageClass
    } else {
        SortField::Name
    }
}

/// What `str::to_uppercase` makes of a string.
pub uninterp spec fn upper_of(s: Seq<char>) -> Seq<char>;

/// Relies on `str::to_uppercase`: the result depends on the characters
/// alone.
#[verifier::external_body]
pub(crate) fn uppercase(s: &str) -> (r: String)
    ensures
        r@ == upper_of(s@),
{
    s.to_uppercase()
}

pub open spec fn sort_dir_of(name: Seq<char>) -> SortDir {
    if upper_of(name) == "DESC"@ {
        SortDir::Desc
    } else {
        SortDir::Asc
    }
}

impl SortField {
    /// The column a requested name selects; unknown names sort by name.
    pub fn from_name(s: &str) -> (r: SortField)
        ensures
            r == sort_field_of(s@),
    {
        if str_eq(s, "size") {
            SortField::Size
        } else if str_eq(s, "lastModified") {
            SortField::LastModified
        } else if str_eq(s, "storageClass") {
            SortField::StorageClass
        } else {
            SortField::Name
        }
    }
}

impl SortDir {
    /// `DESC` in any case is descending; anything else is ascending.
    pub fn from_name(s: &str) -> (r: SortDir)
        ensures
            r == sort_dir_of(s@),
    {
        let u = uppercase(s);
        if str_eq(u.as_str(), "DESC") {
            SortDir::Desc
        } else {
            SortDir::Asc
        }
    }
}

/// The rows of one folder level of one bucket, in catalog order.
pub open spec fn level_rows(rows: Seq<RowView>, t: Seq<char>, b: Seq<char>, parent: Seq<char>, n: int) -> Seq<RowView>
    decreases n,
{
    if n <= 0 {
        Seq::empty()
    } else {
        let r = rows[n - 1];
        if r.target_id == t && r.bucket == b && r.parent_prefix == parent {
            level_rows(rows, t, b, parent, n - 1).push(r)
        } else {
            level_rows(rows, t, b, parent, n - 1)
        }
    }
}

/// The entry a catalog row is shown as.
pub open spec fn row_entry(r: RowView) -> EntryView {
    EntryView {
        key: r.key,
        name: r.name,
        size: r.size,
        last_modified: r.last_modified,
        etag: r.etag,
        storage_class: r.storage_class,
        is_folder: r.is_folder,
    }
}

/// Browse order: folders first; then the chosen column in the chosen
/// direction (a missing value first when ascending); then name ascending.
pub open spec fn browse_key(field: SortField, dir: SortDir, r: RowView) -> KeyView {
    KeyView {
        group: if r.is_folder {
            0
        } else {
            1
        },
        num: if field == SortField::Size {
            r.size
        } else {
            0
        },
        text: match field {
            SortField::Name => Some(r.name),
            SortField::Size => None,
            SortField::LastModified => r.last_modified,
            SortField::StorageClass => r.storage_class,
        },
        desc: dir == SortDir::Desc,
        tie: if field == SortField::Name {
            Seq::empty()
        } else {
            r.name
        },
    }
}

pub open spec fn browse_keys(field: SortField, dir: SortDir, rows: Seq<RowView>) -> Seq<KeyView> {
    rows.map_values(|r: RowView| browse_key(field, dir, r))
}

pub open spec fn row_entries(rows: Seq<RowView>) -> Seq<EntryView> {
    rows.map_values(|r: RowView| row_entry(r))
}

/// Decimal digits of `n`.
pub open spec fn decimal_of(n: nat) -> Seq<char>
    decreases n,
{
    if n < 10 {
        seq![digit_char(n)]
    } else {
        decimal_of(n / 10).push(digit_char(n % 10))
    }
}

pub open spec fn digit_char(d: nat) -> char {
    seq!['0', '1', '2', '3', '4', '5', '6', '7', '8', '9'][d as int]
}

fn digit_str(d: usize) -> (r: &'static str)
    requires
        d < 10,
    ensures
        r@ == seq![digit_char(d as nat)],
{
    proof {
        reveal_strlit("0");
        reveal_strlit("1");
        reveal_strlit("2");
        reveal_strlit("3");
        reveal_strlit("4");
        reveal_strlit("5");
        reveal_strlit("6");
        reveal_strlit("7");
        reveal_strlit("8");
        reveal_strlit("9");
    }
    let r = match d {
        0 => "0",
        1 => "1",
        2 => "2",
        3 => "3",
        4 => "4",
        5 => "5",
        6 => "6",
        7 => "7",
        8 => "8",
        _ => "9",
    };
    assert(r@ =~= seq![digit_char(d as nat)]);
    r
}

/// The decimal digits of `n`, without sign or padding.
pub fn decimal(n: usize) -> (r: String)
    ensures
        r@ == decimal_of(n as nat),
    decreases n,
{
    if n < 10 {
        <String as vstd::string::StringExecFns>::from_str(digit_str(n))
    } else {
        let mut s = decimal(n / 10);
        <String as vstd::string::StringExecFns>::append(&mut s, digit_str(n % 10));
        assert(s@ =~= decimal_of((n / 10) as nat).push(digit_char((n % 10) as nat)));
        s
    }
}

fn row_to_entry(r: &BucketIndexObject) -> (e: S3ObjectEntry)
    ensures
        e@ == row_entry(r@),
{
    S3ObjectEntry {
        key: r.key.clone(),
        name: r.name.clone(),
        size: r.size,
        last_modified: clone_opt(&r.last_modified),
        etag: clone_opt(&r.etag),
        storage_class: clone_opt(&r.storage_class),
        is_folder: r.is_folder,
        content_type: None,
    }
}

fn opt_chars(o: &Option<String>) -> (r: Option<Vec<char>>)
    ensures
        match r {
            Some(v) => opt_view(*o) == Some(v@),
            None => opt_view(*o) is None,
        },
{
    match o {
        Some(s) => Some(chars_of(s.as_str())),
        None => None,
    }
}

/// One page of the folder level `parent_prefix` of a bucket's catalog:
/// the level's rows in browse order, from `offset`, at most `limit` of
/// them. The page is truncated when rows remain after it, and then its
/// token is the decimal offset of the next page.
pub fn browse(
    rows: &Vec<BucketIndexObject>,
    target_id: &str,
    bucket: &str,
    parent_prefix: &str,
    sort_field: SortField,
    sort_dir: SortDir,
    limit: usize,
    offset: usize,
) -> (r: S3ObjectListPage)
    ensures
        ({
            let level = level_rows(rows_view(rows@), target_id@, bucket@, parent_prefix@, rows@.len() as int);
            let total = level.len();
            &&& r.is_truncated == (offset + limit < total)
            &&& opt_view(r.next_continuation_token) == if offset + limit < total {
                Some(decimal_of((offset + limit) as nat))
            } else {
                None
            }
            &&& exists|order: Seq<usize>| #[trigger] is_permutation(order, total) && sorted_by(
                browse_keys(sort_field, sort_dir, level),
                order,
            ) && arranged(
                row_entries(level),
                order.subrange(
                    if offset < total { offset as int } else { total as int },
                    if offset + limit < total { (offset + limit) as int } else { total as int },
                ),
                entries_view(r.entries@),
            )
        }),
{
    let ghost all = rows_view(rows@);
    let mut level: Vec<S3ObjectEntry> = Vec::new();
    let mut keys: Vec<SortKey> = Vec::new();
    let ghost lv = Seq::<RowView>::empty();
    let mut i: usize = 0;
    assert(entries_view(level@) =~= row_entries(lv));
    assert(keys_view(keys@) =~= browse_keys(sort_field, sort_dir, lv));
    while i < rows.len()
        invariant
            all == rows_view(rows@),
            i <= rows@.len(),
            lv == level_rows(all, target_id@, bucket@, parent_prefix@, i as int),
            entries_view(level@) == row_entries(lv),
            keys_view(keys@) == browse_keys(sort_field, sort_dir, lv),
            forall|a: int| 0 <= a < keys@.len() ==> (#[trigger] keys@[a]).desc == (sort_dir == SortDir::Desc),
        decreases rows@.len() - i,
    {
        let row = &rows[i];
        if str_eq(row.target_id.as_str(), target_id) && str_eq(row.bucket.as_str(), bucket) && str_eq(
            row.parent_prefix.as_str(),
            parent_prefix,
        ) {
            let desc = match sort_dir {
                SortDir::Desc => true,
                SortDir::Asc => false,
            };
            let key = match sort_field {
                SortField::Name => SortKey {
                    group: if row.is_folder { 0 } else { 1 },
                    num: 0,
                    text: Some(chars_of(row.name.as_str())),
                    desc,
                    tie: Vec::new(),
                },
                SortField::Size => SortKey {
                    group: if row.is_folder { 0 } else { 1 },
                    num: row.size,
                    text: None,
                    desc,
                    tie: chars_of(row.name.as_str()),
                },
                SortField::LastModified => SortKey {
                    group: if row.is_folder { 0 } else { 1 },
                    num: 0,
                    text: opt_chars(&row.last_modified),
                    desc,
                    tie: chars_of(row.name.as_str()),
                },
                SortField::StorageClass => SortKey {
                    group: if row.is_folder { 0 } else { 1 },
                    num: 0,
                    text: opt_chars(&row.storage_class),
                    desc,
                    tie: chars_of(row.name.as_str()),
                },
            };
            assert(key@ =~= browse_key(sort_field, sort_dir, row@));
            let ghost kb = keys@;
            let ghost eb = level@;
            let ghost lv_old = lv;
            let e = row_to_entry(row);
            keys.push(key);
            level.push(e);
            proof {
                assert(all[i as int] == row@);
                lv = lv_old.push(row@);
                assert(keys@ == kb.push(key));
                assert(level@ == eb.push(e));
                assert(keys_view(keys@) =~= keys_view(kb).push(key@));
                assert(browse_keys(sort_field, sort_dir, lv) =~= browse_keys(sort_field, sort_dir, lv_old).push(
                    browse_key(sort_field, sort_dir, row@),
                ));
                assert(entries_view(level@) =~= entries_view(eb).push(e@));
                assert(row_entries(lv) =~= row_entries(lv_old).push(row_entry(row@)));
            }
        }
        i += 1;
    }
    let order = sort_order(&keys);
    let total = level.len();
    let start: usize = if offset < total { offset } else { total };
    let end: usize = if offset < total && limit < total - offset { offset + limit } else { total };
    let mut window: Vec<usize> = Vec::new();
    let mut k: usize = start;
    while k < end
        invariant
            start <= k <= end <= total,
            total == order@.len(),
            window@ == order@.subrange(start as int, k as int),
        decreases end - k,
    {
        window.push(order[k]);
        k += 1;
        assert(window@ =~= order@.subrange(start as int, k as int));
    }
    let entries = arrange(&level, &window);
    let truncated = offset < total && limit < total - offset;
    let next = if truncated {
        Some(decimal(offset + limit))
    } else {
        None
    };
    assert(lv.len() == total);
    S3ObjectListPage { entries, next_continuation_token: next, is_truncated: truncated }
}

/// The `LIKE` test of the catalog: `%` matches any run of characters, `_`
/// any one character, and other characters match up to ASCII case.
pub open spec fn like_match(p: Seq<char>, s: Seq<char>) -> bool
    decreases p.len(), s.len(),
{
    if p.len() == 0 {
        s.len() == 0
    } else if p[0] == '%' {
        like_match(p.drop_first(), s) || (s.len() > 0 && like_match(p, s.drop_first()))
    } else if s.len() == 0 {
        false
    } else if p[0] == '_' || ascii_fold(p[0]) == ascii_fold(s[0]) {
        like_match(p.drop_first(), s.drop_first())
    } else {
        false
    }
}

/// The pattern a search query stands for: the query anywhere.
pub open spec fn contains_pattern(q: Seq<char>) -> Seq<char> {
    seq!['%'] + q + seq!['%']
}

fn fold_char(c: char) -> (r: u32)
    ensures
        r == ascii_fold(c),
{
    let u = c as u32;
    if 65 <= u && u <= 90 {
        u + 32
    } else {
        u
    }
}

/// Whether `s` matches the `LIKE` pattern `p`.
pub fn like(p: &Vec<char>, s: &Vec<char>) -> (r: bool)
    ensures
        r == like_match(p@, s@),
{
    // `prev[j]` (and `prev_end` for `j == n`) tells whether the rest of `s`
    // from `j` matches the rest of `p` from `i`.
    let n = s.len();
    let mut prev: Vec<bool> = Vec::new();
    let mut j: usize = 0;
    while j < n
        invariant
            n == s@.len(),
            j <= n,
            prev@.len() == j,
            forall|k: int| 0 <= k < j ==> !prev@[k],
        decreases n - j,
    {
        prev.push(false);
        j += 1;
    }
    let mut prev_end = true;
    proof {
        assert(p@.skip(p@.len() as int).len() == 0);
        assert(s@.skip(n as int).len() == 0);
        assert forall|k: int| 0 <= k < n implies prev@[k] == like_match(p@.skip(p@.len() as int), #[trigger] s@.skip(k)) by {
            assert(s@.skip(k).len() == n - k);
        }
    }
    let mut i: usize = p.len();
    while i > 0
        invariant
            n == s@.len(),
            i <= p@.len(),
            prev@.len() == n,
            forall|k: int| 0 <= k < n ==> prev@[k] == like_match(p@.skip(i as int), #[trigger] s@.skip(k)),
            prev_end == like_match(p@.skip(i as int), s@.skip(n as int)),
        decreases i,
    {
        let pi = p[i - 1];
        let ghost pt = p@.skip(i - 1);
        assert(pt.drop_first() =~= p@.skip(i as int));
        assert(pt[0] == pi);
        assert(s@.skip(n as int).len() == 0);
        let cur_end = pi == '%' && prev_end;
        let mut cur: Vec<bool> = Vec::new();
        let mut k: usize = 0;
        while k < n
            invariant
                k <= n,
                cur@.len() == k,
            decreases n - k,
        {
            cur.push(false);
            k += 1;
        }
        let mut jj: usize = n;
        while jj > 0
            invariant
                n == s@.len(),
                jj <= n,
                cur@.len() == n,
                prev@.len() == n,
                pt == p@.skip(i - 1),
                pt.len() > 0,
                pt[0] == pi,
                pt.drop_first() == p@.skip(i as int),
                forall|k: int| 0 <= k < n ==> prev@[k] == like_match(p@.skip(i as int), #[trigger] s@.skip(k)),
                prev_end == like_match(p@.skip(i as int), s@.skip(n as int)),
                cur_end == like_match(pt, s@.skip(n as int)),
                forall|k: int| jj <= k < n ==> cur@[k] == like_match(pt, #[trigger] s@.skip(k)),
            decreases jj,
        {
            let j = jj - 1;
            let ghost st = s@.skip(j as int);
            assert(st.len() == n - j);
            assert(st.drop_first() =~= s@.skip(j + 1));
            assert(st[0] == s@[j as int]);
            let next_cur = if j + 1 < n {
                cur[j + 1]
            } else {
                cur_end
            };
            let next_prev = if j + 1 < n {
                prev[j + 1]
            } else {
                prev_end
            };
            let v: bool = if pi == '%' {
                prev[j] || next_cur
            } else if pi == '_' || fold_char(pi) == fold_char(s[j]) {
                next_prev
            } else {
                false
            };
            assert(v == like_match(pt, st));
            cur.set(j, v);
            jj = j;
        }
        prev = cur;
        prev_end = cur_end;
        i -= 1;
    }
    assert(p@.skip(0) =~= p@);
    assert(s@.skip(0) =~= s@);
    if n == 0 {
        prev_end
    } else {
        prev[0]
    }
}

/// Whether a row is found by a search for `q` in one bucket: a real object
/// whose name or key contains the query.
pub open spec fn found_by(r: RowView, t: Seq<char>, b: Seq<char>, q: Seq<char>) -> bool {
    &&& r.target_id == t
    &&& r.bucket == b
    &&& !r.is_folder
    &&& (like_match(contains_pattern(q), r.name) || like_match(contains_pattern(q), r.key))
}

pub open spec fn found_rows(rows: Seq<RowView>, t: Seq<char>, b: Seq<char>, q: Seq<char>, n: int) -> Seq<RowView>
    decreases n,
{
    if n <= 0 {
        Seq::empty()
    } else if found_by(rows[n - 1], t, b, q) {
        found_rows(rows, t, b, q, n - 1).push(rows[n - 1])
    } else {
        found_rows(rows, t, b, q, n - 1)
    }
}

/// Search order: by name.
pub open spec fn name_key(r: RowView) -> KeyView {
    KeyView { group: 0, num: 0, text: Some(r.name), desc: false, tie: Seq::empty() }
}

pub open spec fn name_keys(rows: Seq<RowView>) -> Seq<KeyView> {
    rows.map_values(|r: RowView| name_key(r))
}

/// Objects of a bucket whose name or key contains `query` (`%` and `_` in
/// it acting as wildcards, letters matching up to ASCII case), by name,
/// at most `limit` of them.
pub fn search(rows: &Vec<BucketIndexObject>, target_id: &str, bucket: &str, query: &str, limit: usize) -> (r: Vec<S3ObjectEntry>)
    ensures
        ({
            let found = found_rows(rows_view(rows@), target_id@, bucket@, query@, rows@.len() as int);
            exists|order: Seq<usize>| #[trigger] is_permutation(order, found.len()) && sorted_by(name_keys(found), order)
                && arranged(
                row_entries(found),
                order.take(if limit < found.len() { limit as int } else { found.len() as int }),
                entries_view(r@),
            )
        }),
{
    let ghost all = rows_view(rows@);
    proof {
        reveal_strlit("%");
    }
    let mut pv: Vec<char> = Vec::new();
    pv.push('%');
    let qv = chars_of(query);
    let mut t: usize = 0;
    while t < qv.len()
        invariant
            t <= qv@.len(),
            pv@ == seq!['%'] + qv@.take(t as int),
        decreases qv@.len() - t,
    {
        pv.push(qv[t]);
        t += 1;
        assert(pv@ =~= seq!['%'] + qv@.take(t as int));
    }
    pv.push('%');
    assert(qv@.take(qv@.len() as int) =~= qv@);
    assert(pv@ =~= contains_pattern(query@));
    let mut found: Vec<S3ObjectEntry> = Vec::new();
    let mut keys: Vec<SortKey> = Vec::new();
    let ghost fv = Seq::<RowView>::empty();
    let mut i: usize = 0;
    assert(entries_view(found@) =~= row_entries(fv));
    assert(keys_view(keys@) =~= name_keys(fv));
    while i < rows.len()
        invariant
            all == rows_view(rows@),
            pv@ == contains_pattern(query@),
            i <= rows@.len(),
            fv == found_rows(all, target_id@, bucket@, query@, i as int),
            entries_view(found@) == row_entries(fv),
            keys_view(keys@) == name_keys(fv),
            forall|a: int| 0 <= a < keys@.len() ==> !(#[trigger] keys@[a]).desc,
        decreases rows@.len() - i,
    {
        let row = &rows[i];
        if str_eq(row.target_id.as_str(), target_id) && str_eq(row.bucket.as_str(), bucket) && !row.is_folder
            && (like(&pv, &chars_of(row.name.as_str())) || like(&pv, &chars_of(row.key.as_str()))) {
            let key = SortKey { group: 0, num: 0, text: Some(chars_of(row.name.as_str())), desc: false, tie: Vec::new() };
            let e = row_to_entry(row);
            let ghost kb = keys@;
            let ghost eb = found@;
            let ghost fv_old = fv;
            keys.push(key);
            found.push(e);
            proof {
                assert(all[i as int] == row@);
                fv = fv_old.push(row@);
                assert(keys_view(keys@) =~= keys_view(kb).push(key@));
                assert(name_keys(fv) =~= name_keys(fv_old).push(name_key(row@)));
                assert(entries_view(found@) =~= entries_view(eb).push(e@));
                assert(row_entries(fv) =~= row_entries(fv_old).push(row_entry(row@)));
            }
        }
        i += 1;
    }
    let order = sort_order(&keys);
    let take: usize = if limit < order.len() { limit } else { order.len() };
    let mut window: Vec<usize> = Vec::new();
    let mut k: usize = 0;
    while k < take
        invariant
            k <= take <= order@.len(),
            window@ == order@.take(k as int),
        decreases take - k,
    {
        window.push(order[k]);
        k += 1;
        assert(window@ =~= order@.take(k as int));
    }
    assert(fv.len() == found@.len());
    arrange(&found, &window)
}

} // verus!
