//! Object keys and prefixes: where a copied object lands, which folder a key
//! sits in, and the name shown for it.

use vstd::prelude::*;
use vstd::string::*;
use crate::text::{chars_of, ends_with_slash, find_last_before, has_prefix, last_index_before, lemma_last_index_before_bounds, slice_of, to_string_of};

verus! {

/// The destination key of `source_key`: the part after `source_prefix`,
/// appended to `dest_prefix`. A key that does not start with the source
/// prefix is appended whole.
pub open spec fn dest_key_of(source_key: Seq<char>, source_prefix: Seq<char>, dest_prefix: Seq<char>) -> Seq<char> {
    if source_prefix.is_prefix_of(source_key) {
        dest_prefix + source_key.subrange(source_prefix.len() as int, source_key.len() as int)
    } else {
        dest_prefix + source_key
    }
}

/// `s` without its trailing run of `/`.
pub open spec fn trim_trailing_slashes(s: Seq<char>) -> Seq<char>
    decreases s.len(),
{
    if ends_with_slash(s) {
        trim_trailing_slashes(s.drop_last())
    } else {
        s
    }
}

/// The folder a key sits in, with its trailing `/`; empty at the root.
/// A folder key `a/b/` sits in `a/`.
pub open spec fn parent_prefix_of(key: Seq<char>) -> Seq<char> {
    let t = trim_trailing_slashes(key);
    let p = last_index_before(t, '/', t.len() as int);
    if p < 0 {
        Seq::empty()
    } else {
        t.subrange(0, p + 1)
    }
}

/// What follows the last `/` of `key` (all of it when there is none).
pub open spec fn last_segment_of(key: Seq<char>) -> Seq<char> {
    key.subrange(last_index_before(key, '/', key.len() as int) + 1, key.len() as int)
}

/// The name of a folder key: its last non-empty segment.
pub open spec fn folder_name_of(key: Seq<char>) -> Seq<char> {
    last_segment_of(trim_trailing_slashes(key))
}

/// The key of a signal-directory entry for an index run.
pub open spec fn index_key_of(target_id: Seq<char>, bucket: Seq<char>) -> Seq<char> {
    target_id + seq![':'] + bucket
}

/// Length of `trim_trailing_slashes(s)`.
pub fn trimmed_len(s: &Vec<char>) -> (r: usize)
    ensures
        r <= s@.len(),
        trim_trailing_slashes(s@) == s@.subrange(0, r as int),
{
    let mut t: usize = s.len();
    assert(s@.subrange(0, t as int) =~= s@);
    while t > 0 && s[t - 1] == '/'
        invariant
            t <= s@.len(),
            trim_trailing_slashes(s@) == trim_trailing_slashes(s@.subrange(0, t as int)),
        decreases t,
    {
        assert(s@.subrange(0, t as int).drop_last() =~= s@.subrange(0, t - 1));
        t -= 1;
    }
    t
}

/// The destination key for `source_key` when copying the tree under
/// `source_prefix` to `dest_prefix`.
pub fn compute_dest_key(source_key: &str, source_prefix: &str, dest_prefix: &str) -> (r: String)
    ensures
        r@ == dest_key_of(source_key@, source_prefix@, dest_prefix@),
        source_prefix@.is_prefix_of(source_key@) ==> r@ == dest_prefix@ + source_key@.subrange(
            source_prefix@.len() as int,
            source_key@.len() as int,
        ),
{
    let sk = chars_of(source_key);
    let sp = chars_of(source_prefix);
    let start: usize = if has_prefix(&sk, &sp) {
        sp.len()
    } else {
        0
    };
    let relative = source_key.substring_char(start, sk.len());
    let out = to_string_of(dest_prefix);
    let r = out.concat(relative);
    assert(source_key@.subrange(0, source_key@.len() as int) =~= source_key@);
    r
}

/// The folder that `key` sits in: `a/b/c.txt` is in `a/b/`, `a/b/` is in
/// `a/`, and `file.txt` is at the root (empty prefix).
pub fn compute_parent_prefix(key: &str) -> (r: String)
    ensures
        r@ == parent_prefix_of(key@),
{
    let k = chars_of(key);
    let t = trimmed_len(&k);
    let ghost tk = k@.subrange(0, t as int);
    proof {
        lemma_last_index_before_bounds(k@, '/', t as int);
    }
    match find_last_before(&k, '/', t) {
        Some(p) => {
            assert(last_index_before(k@, '/', t as int) == last_index_before(tk, '/', t as int)) by {
                lemma_last_index_before_prefix(k@, '/', t as int, t as int);
            }
            assert(tk.subrange(0, p + 1) =~= k@.subrange(0, p + 1));
            slice_of(key, 0, p + 1)
        },
        None => {
            assert(last_index_before(k@, '/', t as int) == last_index_before(tk, '/', t as int)) by {
                lemma_last_index_before_prefix(k@, '/', t as int, t as int);
            }
            assert(parent_prefix_of(key@) =~= Seq::<char>::empty());
            String::new()
        },
    }
}

/// Searching a prefix of `s` finds what searching `s` finds below its end.
pub proof fn lemma_last_index_before_prefix(s: Seq<char>, c: char, n: int, end: int)
    requires
        0 <= end <= n <= s.len(),
    ensures
        last_index_before(s.subrange(0, n), c, end) == last_index_before(s, c, end),
    decreases end,
{
    if end > 0 {
        lemma_last_index_before_prefix(s, c, n, end - 1);
    }
}

/// Position just after the last `/` of `k[..end]` (0 when there is none).
pub fn segment_start(k: &Vec<char>, end: usize) -> (r: usize)
    requires
        end <= k@.len(),
    ensures
        r as int == last_index_before(k@, '/', end as int) + 1,
        r <= end,
{
    proof {
        lemma_last_index_before_bounds(k@, '/', end as int);
    }
    match find_last_before(k, '/', end) {
        Some(p) => p + 1,
        None => 0,
    }
}

/// The name shown for an object key: what follows its last `/`.
pub fn last_segment(key: &str) -> (r: String)
    ensures
        r@ == last_segment_of(key@),
{
    let k = chars_of(key);
    let s = segment_start(&k, k.len());
    slice_of(key, s, k.len())
}

/// The name shown for a folder key: its last non-empty segment.
pub fn folder_name(key: &str) -> (r: String)
    ensures
        r@ == folder_name_of(key@),
{
    let k = chars_of(key);
    let t = trimmed_len(&k);
    let s = segment_start(&k, t);
    let ghost tk = k@.subrange(0, t as int);
    proof {
        lemma_last_index_before_prefix(k@, '/', t as int, t as int);
        assert(tk.subrange(s as int, t as int) =~= k@.subrange(s as int, t as int));
    }
    slice_of(key, s, t)
}

/// The key under which an index run of `bucket` on `target_id` is found in
/// the signal directory.
pub fn index_key(target_id: &str, bucket: &str) -> (r: String)
    ensures
        r@ == index_key_of(target_id@, bucket@),
{
    proof {
        reveal_strlit(":");
    }
    let out = to_string_of(target_id);
    let out = out.concat(":");
    let out = out.concat(bucket);
    assert(out@ =~= index_key_of(target_id@, bucket@));
    out
}

} // verus!
