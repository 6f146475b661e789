//! Local files offered for upload.

use vstd::prelude::*;
use crate::models::DirectoryFileEntry;
use crate::order::{is_permutation, keys_view, sort_order, sorted_by, KeyView, SortKey};
use crate::text::chars_of;

verus! {

pub open spec fn path_keys(v: Seq<DirectoryFileEntry>) -> Seq<KeyView> {
    v.map_values(|e: DirectoryFileEntry| KeyView { group: 0, num: 0, text: Some(e.relative_path@), desc: false, tie: Seq::empty() })
}

/// The files of a directory walk ordered by relative path.
pub fn sort_directory_entries(entries: &Vec<DirectoryFileEntry>) -> (r: Vec<DirectoryFileEntry>)
    ensures
        exists|order: Seq<usize>| #[trigger] is_permutation(order, entries@.len()) && sorted_by(path_keys(entries@), order)
            && r@.len() == order.len() && forall|i: int| 0 <= i < r@.len() ==> {
                let e = entries@[order[i] as int];
                &&& (#[trigger] r@[i]).relative_path@ == e.relative_path@
                &&& r@[i].absolute_path@ == e.absolute_path@
                &&& r@[i].size == e.size
            },
{
    let mut keys: Vec<SortKey> = Vec::new();
    let mut i: usize = 0;
    while i < entries.len()
        invariant
            i <= entries@.len(),
            keys@.len() == i,
            forall|k: int| 0 <= k < i ==> (#[trigger] keys@[k])@ == path_keys(entries@)[k],
            forall|k: int| 0 <= k < i ==> !(#[trigger] keys@[k]).desc,
        decreases entries@.len() - i,
    {
        keys.push(SortKey {
            group: 0,
            num: 0,
            text: Some(chars_of(entries[i].relative_path.as_str())),
            desc: false,
            tie: Vec::new(),
        });
        assert(keys@[i as int]@ =~= path_keys(entries@)[i as int]);
        i += 1;
    }
    assert(keys_view(keys@) =~= path_keys(entries@));
    let order = sort_order(&keys);
    let mut out: Vec<DirectoryFileEntry> = Vec::new();
    let mut k: usize = 0;
    while k < order.len()
        invariant
            k <= order@.len(),
            is_permutation(order@, entries@.len()),
            out@.len() == k,
            forall|a: int| 0 <= a < k ==> {
                let e = entries@[order@[a] as int];
                &&& (#[trigger] out@[a]).relative_path@ == e.relative_path@
                &&& out@[a].absolute_path@ == e.absolute_path@
                &&& out@[a].size == e.size
            },
        decreases order@.len() - k,
    {
        let e = &entries[order[k]];
        out.push(DirectoryFileEntry {
            absolute_path: e.absolute_path.clone(),
            relative_path: e.relative_path.clone(),
            size: e.size,
        });
        k += 1;
    }
    out
}

} // verus!
