//! The object-store gateway's own rules: how a client is configured from a
//! target, how listing results become entries, and how bulk requests are
//! split. The remote calls themselves are made by the caller.

use vstd::prelude::*;
use crate::keys::{last_segment, last_segment_of, trim_trailing_slashes, trimmed_len};
use crate::models::{clone_opt, opt_view, EntryView, ListedObject, ListedView, S3ObjectEntry, StorageTarget, TargetCredentials};
use crate::text::{chars_of, ends_with_slash, has_prefix, slice_of, str_eq, to_string_of};
use crate::content_type::{lower_of, lowercase};
use crate::order::{is_permutation, sort_order, sorted_by, keys_view, KeyView, SortKey};
use crate::models::{BucketStats, S3BucketSummary, S3ObjectListPage};

verus! {

/// The characters `char::is_whitespace` accepts (Unicode White_Space).
pub open spec fn is_white_space(c: char) -> bool {
    let u = c as u32;
    (9 <= u && u <= 13) || u == 32 || u == 0x85 || u == 0xA0 || u == 0x1680 || (0x2000 <= u && u <= 0x200A) || u
        == 0x2028 || u == 0x2029 || u == 0x202F || u == 0x205F || u == 0x3000
}

/// `s` without its leading white space.
pub open spec fn trim_start_of(s: Seq<char>) -> Seq<char>
    decreases s.len(),
{
    if s.len() > 0 && is_white_space(s[0]) {
        trim_start_of(s.drop_first())
    } else {
        s
    }
}

/// `s` without its trailing white space.
pub open spec fn trim_end_of(s: Seq<char>) -> Seq<char>
    decreases s.len(),
{
    if s.len() > 0 && is_white_space(s.last()) {
        trim_end_of(s.drop_last())
    } else {
        s
    }
}

/// `s` without leading and trailing white space, as `str::trim` gives it.
pub open spec fn trim_of(s: Seq<char>) -> Seq<char> {
    trim_end_of(trim_start_of(s))
}

fn white_space(c: char) -> (r: bool)
    ensures
        r == is_white_space(c),
{
    let u = c as u32;
    (9 <= u && u <= 13) || u == 32 || u == 0x85 || u == 0xA0 || u == 0x1680 || (0x2000 <= u && u <= 0x200A) || u
        == 0x2028 || u == 0x2029 || u == 0x202F || u == 0x205F || u == 0x3000
}

/// `s` with leading and trailing white space removed.
pub fn trim_str(s: &str) -> (r: String)
    ensures
        r@ == trim_of(s@),
{
    let v = chars_of(s);
    let n = v.len();
    let mut i: usize = 0;
    assert(s@.skip(0) =~= s@);
    while i < n && white_space(v[i])
        invariant
            v@ == s@,
            n == s@.len(),
            i <= n,
            trim_start_of(s@) == trim_start_of(s@.skip(i as int)),
        decreases n - i,
    {
        assert(s@.skip(i as int).drop_first() =~= s@.skip(i + 1));
        i += 1;
    }
    let ghost st = s@.skip(i as int);
    assert(trim_start_of(st) == st);
    let mut j: usize = n;
    assert(st =~= s@.subrange(i as int, n as int));
    while j > i && white_space(v[j - 1])
        invariant
            v@ == s@,
            n == s@.len(),
            i <= j <= n,
            trim_start_of(s@) == st,
            st == s@.subrange(i as int, n as int),
            trim_end_of(st) == trim_end_of(s@.subrange(i as int, j as int)),
        decreases j,
    {
        assert(s@.subrange(i as int, j as int).drop_last() =~= s@.subrange(i as int, j - 1));
        j -= 1;
    }
    slice_of(s, i, j)
}

/// ASCII case folding of one character, as a code point.
pub open spec fn ascii_fold(c: char) -> u32 {
    if ('A' as u32) <= (c as u32) && (c as u32) <= ('Z' as u32) {
        (c as u32 + 32) as u32
    } else {
        c as u32
    }
}

/// Equality up to ASCII case.
pub open spec fn eq_ignore_ascii_case(a: Seq<char>, b: Seq<char>) -> bool {
    a.len() == b.len() && forall|i: int| 0 <= i < a.len() ==> ascii_fold(#[trigger] a[i]) == ascii_fold(b[i])
}

pub fn ascii_eq_ignore_case(a: &str, b: &str) -> (r: bool)
    ensures
        r == eq_ignore_ascii_case(a@, b@),
{
    let va = chars_of(a);
    let vb = chars_of(b);
    if va.len() != vb.len() {
        return false;
    }
    let mut i: usize = 0;
    while i < va.len()
        invariant
            va@ == a@,
            vb@ == b@,
            va@.len() == vb@.len(),
            i <= va@.len(),
            forall|j: int| 0 <= j < i ==> ascii_fold(#[trigger] a@[j]) == ascii_fold(b@[j]),
        decreases va@.len() - i,
    {
        let ca = va[i] as u32;
        let cb = vb[i] as u32;
        let fa: u32 = if 65 <= ca && ca <= 90 { ca + 32 } else { ca };
        let fb: u32 = if 65 <= cb && cb <= 90 { cb + 32 } else { cb };
        if fa != fb {
            return false;
        }
        i += 1;
    }
    true
}

/// The region used when a target names none.
pub open spec fn default_region_of(provider: Seq<char>) -> Seq<char> {
    if eq_ignore_ascii_case(provider, "Cloudflare R2"@) {
        "auto"@
    } else {
        "us-east-1"@
    }
}

/// `auto` for Cloudflare R2 (in any ASCII case), `us-east-1` otherwise.
pub fn default_region(provider: &str) -> (r: String)
    ensures
        r@ == default_region_of(provider@),
{
    if ascii_eq_ignore_case(provider, "Cloudflare R2") {
        to_string_of("auto")
    } else {
        to_string_of("us-east-1")
    }
}

/// The region of a target: its own, trimmed, when that is not blank;
/// otherwise the provider's default.
pub open spec fn region_of(region: Option<Seq<char>>, provider: Seq<char>) -> Seq<char> {
    match region {
        Some(r) => if trim_of(r).len() > 0 {
            trim_of(r)
        } else {
            default_region_of(provider)
        },
        None => default_region_of(provider),
    }
}

pub fn resolve_region(region: &Option<String>, provider: &str) -> (r: String)
    ensures
        r@ == region_of(opt_view(*region), provider@),
{
    match region {
        Some(s) => {
            let t = trim_str(s.as_str());
            if chars_of(t.as_str()).len() > 0 {
                t
            } else {
                default_region(provider)
            }
        },
        None => default_region(provider),
    }
}

/// Everything needed to build a client for one target.
pub struct ClientConfig {
    pub region: String,
    pub endpoint_url: Option<String>,
    pub force_path_style: bool,
    pub access_key_id: String,
    pub secret_access_key: String,
    pub session_token: Option<String>,
}

/// Why a client cannot be configured.
#[derive(Clone, Copy, Debug, PartialEq, Eq, Structural)]
pub enum ConfigError {
    MissingCredentials,
}

/// The client configuration of a target: refused when either key is blank;
/// otherwise its region as `region_of` says, its endpoint trimmed when not
/// blank, its path-style flag, and its credentials.
pub fn client_config(target: &StorageTarget, credentials: &TargetCredentials) -> (r: Result<ClientConfig, ConfigError>)
    ensures
        r is Err <==> (trim_of(credentials.access_key_id@).len() == 0 || trim_of(credentials.secret_access_key@).len() == 0),
        r is Ok ==> ({
            let c = r->Ok_0;
            &&& c.region@ == region_of(opt_view(target.region), target.provider@)
            &&& opt_view(c.endpoint_url) == if trim_of(target.endpoint@).len() > 0 {
                Some(trim_of(target.endpoint@))
            } else {
                None
            }
            &&& c.force_path_style == target.force_path_style
            &&& c.access_key_id@ == credentials.access_key_id@
            &&& c.secret_access_key@ == credentials.secret_access_key@
            &&& opt_view(c.session_token) == opt_view(credentials.session_token)
        }),
{
    let ak = trim_str(credentials.access_key_id.as_str());
    let sk = trim_str(credentials.secret_access_key.as_str());
    if chars_of(ak.as_str()).len() == 0 || chars_of(sk.as_str()).len() == 0 {
        return Err(ConfigError::MissingCredentials);
    }
    let region = resolve_region(&target.region, target.provider.as_str());
    let ep = trim_str(target.endpoint.as_str());
    let endpoint_url = if chars_of(ep.as_str()).len() > 0 {
        Some(ep)
    } else {
        None
    };
    Ok(ClientConfig {
        region,
        endpoint_url,
        force_path_style: target.force_path_style,
        access_key_id: credentials.access_key_id.clone(),
        secret_access_key: credentials.secret_access_key.clone(),
        session_token: clone_opt(&credentials.session_token),
    })
}

/// `s` without `p` in front, when it starts with it.
pub open spec fn strip_prefix_of(s: Seq<char>, p: Seq<char>) -> Seq<char> {
    if p.is_prefix_of(s) {
        s.subrange(p.len() as int, s.len() as int)
    } else {
        s
    }
}

pub fn strip_prefix(s: &str, p: &str) -> (r: String)
    ensures
        r@ == strip_prefix_of(s@, p@),
{
    let sv = chars_of(s);
    let pv = chars_of(p);
    if has_prefix(&sv, &pv) {
        slice_of(s, pv.len(), sv.len())
    } else {
        assert(s@.subrange(0, s@.len() as int) =~= s@);
        slice_of(s, 0, sv.len())
    }
}

/// The folder entry of a common prefix under `prefix`, if it is shown:
/// not the prefix itself, and with a non-empty name.
pub open spec fn folder_entry_of(prefix: Seq<char>, p: Option<Seq<char>>) -> Option<EntryView> {
    match p {
        Some(k) => {
            let name = trim_trailing_slashes(strip_prefix_of(k, prefix));
            if k == prefix || name.len() == 0 {
                None
            } else {
                Some(EntryView {
                    key: k,
                    name: name,
                    size: 0,
                    last_modified: None,
                    etag: None,
                    storage_class: None,
                    is_folder: true,
                })
            }
        },
        None => None,
    }
}

/// The file entry of a listed object under `prefix`, if it is shown: not
/// the prefix itself, not empty, and not a folder marker.
pub open spec fn file_entry_of(prefix: Seq<char>, o: ListedView) -> Option<EntryView> {
    let name = strip_prefix_of(o.key, prefix);
    if o.key == prefix || o.key.len() == 0 || name.len() == 0 || ends_with_slash(name) {
        None
    } else {
        Some(EntryView {
            key: o.key,
            name: name,
            size: o.size,
            last_modified: o.last_modified,
            etag: o.etag,
            storage_class: o.storage_class,
            is_folder: false,
        })
    }
}

/// The shown folder entries among the first `n` common prefixes, in order.
pub open spec fn shown_folders(prefix: Seq<char>, xs: Seq<Option<Seq<char>>>, n: int) -> Seq<EntryView>
    decreases n,
{
    if n <= 0 {
        Seq::empty()
    } else {
        match folder_entry_of(prefix, xs[n - 1]) {
            Some(e) => shown_folders(prefix, xs, n - 1).push(e),
            None => shown_folders(prefix, xs, n - 1),
        }
    }
}

/// The shown file entries among the first `n` listed objects, in order.
pub open spec fn shown_files(prefix: Seq<char>, xs: Seq<ListedView>, n: int) -> Seq<EntryView>
    decreases n,
{
    if n <= 0 {
        Seq::empty()
    } else {
        match file_entry_of(prefix, xs[n - 1]) {
            Some(e) => shown_files(prefix, xs, n - 1).push(e),
            None => shown_files(prefix, xs, n - 1),
        }
    }
}

/// The entries of the first `n` objects of a recursive listing, in order.
pub open spec fn shown_recursive(xs: Seq<ListedView>, n: int) -> Seq<EntryView>
    decreases n,
{
    if n <= 0 {
        Seq::empty()
    } else {
        match recursive_entry_of(xs[n - 1]) {
            Some(e) => shown_recursive(xs, n - 1).push(e),
            None => shown_recursive(xs, n - 1),
        }
    }
}

pub open spec fn entries_view(v: Seq<S3ObjectEntry>) -> Seq<EntryView> {
    v.map_values(|e: S3ObjectEntry| e@)
}

pub open spec fn opt_views(v: Seq<Option<String>>) -> Seq<Option<Seq<char>>> {
    v.map_values(|o: Option<String>| opt_view(o))
}

pub open spec fn listed_views(v: Seq<ListedObject>) -> Seq<ListedView> {
    v.map_values(|o: ListedObject| o@)
}

/// The folder entries of a delimited listing under `prefix`.
pub fn folder_entries(prefix: &str, common_prefixes: &Vec<Option<String>>) -> (r: Vec<S3ObjectEntry>)
    ensures
        entries_view(r@) == shown_folders(prefix@, opt_views(common_prefixes@), common_prefixes@.len() as int),
{
    let ghost xs = opt_views(common_prefixes@);
    let mut out: Vec<S3ObjectEntry> = Vec::new();
    let mut i: usize = 0;
    assert(entries_view(out@) =~= Seq::<EntryView>::empty());
    while i < common_prefixes.len()
        invariant
            xs == opt_views(common_prefixes@),
            i <= common_prefixes@.len(),
            entries_view(out@) == shown_folders(prefix@, xs, i as int),
        decreases common_prefixes@.len() - i,
    {
        match &common_prefixes[i] {
            Some(p) => {
                let rel = strip_prefix(p.as_str(), prefix);
                let rc = chars_of(rel.as_str());
                let t = trimmed_len(&rc);
                if !str_eq(p.as_str(), prefix) && t > 0 {
                    let name = slice_of(rel.as_str(), 0, t);
                    let e = S3ObjectEntry {
                        key: p.clone(),
                        name,
                        size: 0,
                        last_modified: None,
                        etag: None,
                        storage_class: None,
                        is_folder: true,
                        content_type: None,
                    };
                    let ghost before = out@;
                    out.push(e);
                    assert(entries_view(out@) =~= entries_view(before).push(e@));
                }
            },
            None => {},
        }
        i += 1;
    }
    out
}

/// The file entries of a listing under `prefix`.
pub fn file_entries(prefix: &str, contents: &Vec<ListedObject>) -> (r: Vec<S3ObjectEntry>)
    ensures
        entries_view(r@) == shown_files(prefix@, listed_views(contents@), contents@.len() as int),
{
    let ghost xs = listed_views(contents@);
    let mut out: Vec<S3ObjectEntry> = Vec::new();
    let mut i: usize = 0;
    assert(entries_view(out@) =~= Seq::<EntryView>::empty());
    while i < contents.len()
        invariant
            xs == listed_views(contents@),
            i <= contents@.len(),
            entries_view(out@) == shown_files(prefix@, xs, i as int),
        decreases contents@.len() - i,
    {
        let obj = &contents[i];
        let key: String = match &obj.key {
            Some(k) => k.clone(),
            None => String::new(),
        };
        let name = strip_prefix(key.as_str(), prefix);
        let nc = chars_of(name.as_str());
        let kc = chars_of(key.as_str());
        if !str_eq(key.as_str(), prefix) && kc.len() > 0 && nc.len() > 0 && nc[nc.len() - 1] != '/' {
            let size: i64 = match obj.size {
                Some(n) => n,
                None => 0,
            };
            let e = S3ObjectEntry {
                key,
                name,
                size,
                last_modified: clone_opt(&obj.last_modified),
                etag: clone_opt(&obj.etag),
                storage_class: clone_opt(&obj.storage_class),
                is_folder: false,
                content_type: None,
            };
            let ghost before = out@;
            out.push(e);
            assert(entries_view(out@) =~= entries_view(before).push(e@));
        }
        i += 1;
    }
    out
}

/// The entry of an object in a recursive listing, if shown: real objects
/// only, named by their last segment.
pub open spec fn recursive_entry_of(o: ListedView) -> Option<EntryView> {
    if o.key.len() == 0 || ends_with_slash(o.key) {
        None
    } else {
        Some(EntryView {
            key: o.key,
            name: last_segment_of(o.key),
            size: o.size,
            last_modified: o.last_modified,
            etag: o.etag,
            storage_class: o.storage_class,
            is_folder: false,
        })
    }
}

/// The entries of a recursive (undelimited) listing, in listing order.
pub fn recursive_entries(contents: &Vec<ListedObject>) -> (r: Vec<S3ObjectEntry>)
    ensures
        entries_view(r@) == shown_recursive(listed_views(contents@), contents@.len() as int),
{
    let ghost xs = listed_views(contents@);
    let mut out: Vec<S3ObjectEntry> = Vec::new();
    let mut i: usize = 0;
    assert(entries_view(out@) =~= Seq::<EntryView>::empty());
    while i < contents.len()
        invariant
            xs == listed_views(contents@),
            i <= contents@.len(),
            entries_view(out@) == shown_recursive(xs, i as int),
        decreases contents@.len() - i,
    {
        let obj = &contents[i];
        let key: String = match &obj.key {
            Some(k) => k.clone(),
            None => String::new(),
        };
        let kc = chars_of(key.as_str());
        if kc.len() > 0 && kc[kc.len() - 1] != '/' {
            let size: i64 = match obj.size {
                Some(n) => n,
                None => 0,
            };
            let e = S3ObjectEntry {
                name: last_segment(key.as_str()),
                key,
                size,
                last_modified: clone_opt(&obj.last_modified),
                etag: clone_opt(&obj.etag),
                storage_class: clone_opt(&obj.storage_class),
                is_folder: false,
                content_type: None,
            };
            let ghost before = out@;
            out.push(e);
            assert(entries_view(out@) =~= entries_view(before).push(e@));
        }
        i += 1;
    }
    out
}

/// Display order of a listing: folders first, then by lower-case name.
pub open spec fn listing_key(e: EntryView) -> KeyView {
    KeyView {
        group: if e.is_folder {
            0
        } else {
            1
        },
        num: 0,
        text: Some(lower_of(e.name)),
        desc: false,
        tie: Seq::empty(),
    }
}

pub open spec fn listing_keys(v: Seq<EntryView>) -> Seq<KeyView> {
    v.map_values(|e: EntryView| listing_key(e))
}

impl S3ObjectEntry {
    /// A copy of the entry.
    pub fn duplicate(&self) -> (r: S3ObjectEntry)
        ensures
            r@ == self@,
    {
        S3ObjectEntry {
            key: self.key.clone(),
            name: self.name.clone(),
            size: self.size,
            last_modified: clone_opt(&self.last_modified),
            etag: clone_opt(&self.etag),
            storage_class: clone_opt(&self.storage_class),
            is_folder: self.is_folder,
            content_type: clone_opt(&self.content_type),
        }
    }
}

/// `out` holds the entries of `input` in the order `order` gives.
pub open spec fn arranged(input: Seq<EntryView>, order: Seq<usize>, out: Seq<EntryView>) -> bool {
    &&& out.len() == order.len()
    &&& forall|i: int| 0 <= i < out.len() ==> #[trigger] out[i] == input[order[i] as int]
}

/// The entries of `input` taken in the order `order` gives.
pub fn arrange(input: &Vec<S3ObjectEntry>, order: &Vec<usize>) -> (r: Vec<S3ObjectEntry>)
    requires
        forall|i: int| 0 <= i < order@.len() ==> (#[trigger] order@[i]) < input@.len(),
    ensures
        arranged(entries_view(input@), order@, entries_view(r@)),
{
    let mut out: Vec<S3ObjectEntry> = Vec::new();
    let mut i: usize = 0;
    while i < order.len()
        invariant
            i <= order@.len(),
            forall|k: int| 0 <= k < order@.len() ==> (#[trigger] order@[k]) < input@.len(),
            out@.len() == i,
            forall|k: int| 0 <= k < i ==> (#[trigger] out@[k])@ == input@[order@[k] as int]@,
        decreases order@.len() - i,
    {
        out.push(input[order[i]].duplicate());
        i += 1;
    }
    out
}

/// Entries in display order: a permutation of the input with folders
/// first, then ordered by lower-case name.
pub fn sort_entries(entries: &Vec<S3ObjectEntry>) -> (r: Vec<S3ObjectEntry>)
    ensures
        exists|order: Seq<usize>| #[trigger] is_permutation(order, entries@.len()) && arranged(entries_view(entries@), order, entries_view(r@))
            && sorted_by(listing_keys(entries_view(entries@)), order),
{
    let mut keys: Vec<SortKey> = Vec::new();
    let mut i: usize = 0;
    while i < entries.len()
        invariant
            i <= entries@.len(),
            keys@.len() == i,
            forall|k: int| 0 <= k < i ==> (#[trigger] keys@[k])@ == listing_key(entries@[k]@),
        decreases entries@.len() - i,
    {
        let e = &entries[i];
        let lower = lowercase(e.name.as_str());
        keys.push(SortKey {
            group: if e.is_folder {
                0
            } else {
                1
            },
            num: 0,
            text: Some(chars_of(lower.as_str())),
            desc: false,
            tie: Vec::new(),
        });
        assert(keys@[i as int]@ =~= listing_key(entries@[i as int]@));
        i += 1;
    }
    let order = sort_order(&keys);
    let r = arrange(entries, &order);
    assert(keys_view(keys@) =~= listing_keys(entries_view(entries@)));
    r
}

/// A page of a delimited listing under `prefix`: its folder entries, then
/// its file entries, in display order; the continuation token is kept only
/// when the page was truncated.
pub fn listing_page(
    prefix: &str,
    common_prefixes: &Vec<Option<String>>,
    contents: &Vec<ListedObject>,
    is_truncated: Option<bool>,
    next_token: Option<String>,
) -> (r: S3ObjectListPage)
    ensures
        r.is_truncated == (is_truncated == Some(true)),
        opt_view(r.next_continuation_token) == if is_truncated == Some(true) {
            opt_view(next_token)
        } else {
            None
        },
        exists|order: Seq<usize>| #[trigger] is_permutation(order, listing_entries_of(prefix@, common_prefixes@, contents@).len())
            && arranged(listing_entries_of(prefix@, common_prefixes@, contents@), order, entries_view(r.entries@))
            && sorted_by(listing_keys(listing_entries_of(prefix@, common_prefixes@, contents@)), order),
{
    let entries = listing_entries(prefix, common_prefixes, contents);
    let truncated = match is_truncated {
        Some(true) => true,
        _ => false,
    };
    S3ObjectListPage {
        entries,
        next_continuation_token: if truncated {
            next_token
        } else {
            None
        },
        is_truncated: truncated,
    }
}

/// The shown folder entries followed by the shown file entries.
pub open spec fn listing_entries_of(prefix: Seq<char>, cps: Seq<Option<String>>, contents: Seq<ListedObject>) -> Seq<EntryView> {
    shown_folders(prefix, opt_views(cps), cps.len() as int) + shown_files(prefix, listed_views(contents), contents.len() as int)
}

/// All entries of a delimited listing under `prefix` (every page's common
/// prefixes and contents), in display order.
pub fn listing_entries(prefix: &str, common_prefixes: &Vec<Option<String>>, contents: &Vec<ListedObject>) -> (r: Vec<S3ObjectEntry>)
    ensures
        exists|order: Seq<usize>| #[trigger] is_permutation(order, listing_entries_of(prefix@, common_prefixes@, contents@).len())
            && arranged(listing_entries_of(prefix@, common_prefixes@, contents@), order, entries_view(r@))
            && sorted_by(listing_keys(listing_entries_of(prefix@, common_prefixes@, contents@)), order),
{
    let mut all = folder_entries(prefix, common_prefixes);
    let mut files = file_entries(prefix, contents);
    let ghost a = entries_view(all@);
    let ghost b = entries_view(files@);
    all.append(&mut files);
    assert(entries_view(all@) =~= a + b);
    let r = sort_entries(&all);
    let ghost order = choose|order: Seq<usize>| #[trigger] is_permutation(order, all@.len()) && arranged(entries_view(all@), order, entries_view(r@))
        && sorted_by(listing_keys(entries_view(all@)), order);
    assert(is_permutation(order, listing_entries_of(prefix@, common_prefixes@, contents@).len()));
    r
}

/// The name of a folder to create: `key` with a trailing `/`.
pub open spec fn folder_key_of(key: Seq<char>) -> Seq<char> {
    if ends_with_slash(key) {
        key
    } else {
        key.push('/')
    }
}

pub fn folder_key(key: &str) -> (r: String)
    ensures
        r@ == folder_key_of(key@),
{
    let k = chars_of(key);
    if k.len() > 0 && k[k.len() - 1] == '/' {
        to_string_of(key)
    } else {
        proof {
            reveal_strlit("/");
        }
        let r = to_string_of(key).concat("/");
        assert(r@ =~= key@.push('/'));
        r
    }
}

/// Keys are deleted in requests of at most this many.
pub const DELETE_BATCH: usize = 1000;

/// Splits keys into consecutive groups of `DELETE_BATCH` (the last may be
/// shorter), in order.
pub fn delete_batches(keys: &Vec<String>) -> (r: Vec<Vec<String>>)
    ensures
        r@.len() * DELETE_BATCH >= keys@.len(),
        r@.len() == 0 || (r@.len() - 1) * DELETE_BATCH < keys@.len(),
        forall|i: int| 0 <= i < r@.len() ==> (#[trigger] r@[i])@ == keys@.subrange(
            i * DELETE_BATCH,
            if (i + 1) * DELETE_BATCH < keys@.len() {
                (i + 1) * DELETE_BATCH
            } else {
                keys@.len() as int
            },
        ),
{
    let mut out: Vec<Vec<String>> = Vec::new();
    let mut start: usize = 0;
    let n = keys.len();
    while start < n
        invariant
            n == keys@.len(),
            start as int == out@.len() * DELETE_BATCH,
            start <= n,
            out@.len() == 0 || (out@.len() - 1) * DELETE_BATCH < n,
            forall|i: int| 0 <= i < out@.len() ==> (#[trigger] out@[i])@ == keys@.subrange(
                i * DELETE_BATCH,
                if (i + 1) * DELETE_BATCH < keys@.len() {
                    (i + 1) * DELETE_BATCH
                } else {
                    keys@.len() as int
                },
            ),
        decreases n - start,
    {
        let end: usize = if n - start > DELETE_BATCH {
            start + DELETE_BATCH
        } else {
            n
        };
        let mut chunk: Vec<String> = Vec::new();
        let mut j: usize = start;
        while j < end
            invariant
                start <= j <= end <= n,
                n == keys@.len(),
                chunk@ == keys@.subrange(start as int, j as int),
            decreases end - j,
        {
            chunk.push(keys[j].clone());
            j += 1;
            assert(chunk@ =~= keys@.subrange(start as int, j as int));
        }
        let ghost k = out@.len() as int;
        assert((k + 1) * DELETE_BATCH == k * DELETE_BATCH + DELETE_BATCH) by (nonlinear_arith);
        out.push(chunk);
        start = end;
        if start < n {
            assert(start as int == out@.len() * DELETE_BATCH);
        } else {
            assert(start == n);
            assert(start <= out@.len() * DELETE_BATCH);
            assert(out@.len() * DELETE_BATCH >= keys@.len());
            return out;
        }
    }
    assert(n == 0 || start >= n);
    out
}

/// The ZIP entry name of `key`: the part after `base_prefix`, or nothing
/// when that is empty.
pub fn zip_entry_name(key: &str, base_prefix: &str) -> (r: Option<String>)
    ensures
        match r {
            Some(n) => n@ == strip_prefix_of(key@, base_prefix@) && n@.len() > 0,
            None => strip_prefix_of(key@, base_prefix@).len() == 0,
        },
{
    let name = strip_prefix(key, base_prefix);
    if chars_of(name.as_str()).len() == 0 {
        None
    } else {
        Some(name)
    }
}

/// Number and total size of the first `n` listed objects (folder markers
/// included).
pub open spec fn tally_of(xs: Seq<ListedView>, n: int) -> (int, int)
    decreases n,
{
    if n <= 0 {
        (0, 0)
    } else {
        let (c, s) = tally_of(xs, n - 1);
        (c + 1, s + xs[n - 1].size)
    }
}

proof fn lemma_tally_bounds(xs: Seq<ListedView>, m: int, n: int)
    requires
        0 <= m <= n <= xs.len(),
        forall|j: int| 0 <= j < xs.len() ==> 0 <= (#[trigger] xs[j]).size,
    ensures
        tally_of(xs, m).0 == m,
        0 <= tally_of(xs, m).1 <= tally_of(xs, n).1,
    decreases n,
{
    if n > m {
        lemma_tally_bounds(xs, m, n - 1);
    } else if m > 0 {
        lemma_tally_bounds(xs, m - 1, m - 1);
    }
}

/// Adds one listing page to bucket statistics: every object counts, with
/// its size.
pub fn tally_page(stats: &mut BucketStats, contents: &Vec<ListedObject>)
    requires
        forall|i: int| 0 <= i < contents@.len() ==> 0 <= (#[trigger] contents@[i])@.size,
        0 <= old(stats).object_count,
        0 <= old(stats).total_size,
        old(stats).object_count + contents@.len() <= i64::MAX,
        old(stats).total_size + tally_of(listed_views(contents@), contents@.len() as int).1 <= i64::MAX,
    ensures
        final(stats).object_count == old(stats).object_count + contents@.len(),
        final(stats).total_size == old(stats).total_size + tally_of(listed_views(contents@), contents@.len() as int).1,
{
    let ghost xs = listed_views(contents@);
    let ghost c0 = stats.object_count as int;
    let ghost s0 = stats.total_size as int;
    let mut i: usize = 0;
    while i < contents.len()
        invariant
            xs == listed_views(contents@),
            i <= contents@.len(),
            forall|j: int| 0 <= j < contents@.len() ==> 0 <= (#[trigger] contents@[j])@.size,
            stats.object_count == c0 + i,
            stats.total_size == s0 + tally_of(xs, i as int).1,
            0 <= c0,
            0 <= s0,
            c0 + contents@.len() <= i64::MAX,
            s0 + tally_of(xs, contents@.len() as int).1 <= i64::MAX,
        decreases contents@.len() - i,
    {
        proof {
            lemma_tally_bounds(xs, i + 1, contents@.len() as int);
        }
        let size: i64 = match contents[i].size {
            Some(n) => n,
            None => 0,
        };
        stats.object_count = stats.object_count + 1;
        stats.total_size = stats.total_size + size;
        i += 1;
    }
}

/// Buckets with a name, in listing order.
pub open spec fn named_buckets(v: Seq<S3BucketSummary>, n: int) -> Seq<S3BucketSummary>
    decreases n,
{
    if n <= 0 {
        Seq::empty()
    } else if v[n - 1].name@.len() > 0 {
        named_buckets(v, n - 1).push(v[n - 1])
    } else {
        named_buckets(v, n - 1)
    }
}

/// Bucket order: by lower-case name.
pub open spec fn bucket_keys(v: Seq<S3BucketSummary>) -> Seq<KeyView> {
    v.map_values(|b: S3BucketSummary| KeyView { group: 0, num: 0, text: Some(lower_of(b.name@)), desc: false, tie: Seq::empty() })
}

/// The buckets of a `ListBuckets` answer that have a name, ordered by
/// lower-case name.
pub fn bucket_summaries(buckets: &Vec<S3BucketSummary>) -> (r: Vec<S3BucketSummary>)
    ensures
        ({
            let named = named_buckets(buckets@, buckets@.len() as int);
            exists|order: Seq<usize>| #[trigger] is_permutation(order, named.len()) && sorted_by(bucket_keys(named), order)
                && r@.len() == order.len()
                && forall|i: int| 0 <= i < r@.len() ==> (#[trigger] r@[i]).name@ == named[order[i] as int].name@
                    && r@[i].created_at == named[order[i] as int].created_at
        }),
{
    let mut named: Vec<S3BucketSummary> = Vec::new();
    let mut keys: Vec<SortKey> = Vec::new();
    let ghost nv = Seq::<S3BucketSummary>::empty();
    let mut i: usize = 0;
    while i < buckets.len()
        invariant
            i <= buckets@.len(),
            nv == named_buckets(buckets@, i as int),
            named@.len() == nv.len(),
            forall|k: int| 0 <= k < nv.len() ==> (#[trigger] named@[k]).name@ == nv[k].name@ && named@[k].created_at
                == nv[k].created_at,
            keys_view(keys@) == bucket_keys(nv),
            forall|a: int| 0 <= a < keys@.len() ==> !(#[trigger] keys@[a]).desc,
        decreases buckets@.len() - i,
    {
        let b = &buckets[i];
        if chars_of(b.name.as_str()).len() > 0 {
            let lower = lowercase(b.name.as_str());
            let key = SortKey { group: 0, num: 0, text: Some(chars_of(lower.as_str())), desc: false, tie: Vec::new() };
            let ghost kb = keys@;
            let ghost nv_old = nv;
            keys.push(key);
            named.push(S3BucketSummary { name: b.name.clone(), created_at: b.created_at });
            proof {
                nv = nv_old.push(buckets@[i as int]);
                assert(keys_view(keys@) =~= keys_view(kb).push(key@));
                assert(bucket_keys(nv) =~= bucket_keys(nv_old).push(key@));
            }
        }
        i += 1;
    }
    let order = sort_order(&keys);
    let mut out: Vec<S3BucketSummary> = Vec::new();
    let mut k: usize = 0;
    while k < order.len()
        invariant
            k <= order@.len(),
            is_permutation(order@, nv.len()),
            named@.len() == nv.len(),
            forall|a: int| 0 <= a < nv.len() ==> (#[trigger] named@[a]).name@ == nv[a].name@ && named@[a].created_at
                == nv[a].created_at,
            out@.len() == k,
            forall|a: int| 0 <= a < k ==> (#[trigger] out@[a]).name@ == nv[order@[a] as int].name@ && out@[a].created_at
                == nv[order@[a] as int].created_at,
        decreases order@.len() - k,
    {
        let b = &named[order[k]];
        out.push(S3BucketSummary { name: b.name.clone(), created_at: b.created_at });
        k += 1;
    }
    out
}

} // verus!
