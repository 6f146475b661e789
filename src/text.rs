//! Character-level helpers over `&str`, each tied to its meaning on the
//! string's view (`Seq<char>`).

use vstd::prelude::*;
use vstd::string::*;

verus! {

/// True when `s` ends with a `/`.
pub open spec fn ends_with_slash(s: Seq<char>) -> bool {
    s.len() > 0 && s.last() == '/'
}

/// Copies the characters of `s` into a vector.
pub fn chars_of(s: &str) -> (r: Vec<char>)
    ensures
        r@ == s@,
{
    let n = s.unicode_len();
    let mut v: Vec<char> = Vec::new();
    let mut i: usize = 0;
    while i < n
        invariant
            n == s@.len(),
            i <= n,
            v@ == s@.subrange(0, i as int),
        decreases n - i,
    {
        v.push(s.get_char(i));
        i += 1;
        assert(v@ =~= s@.subrange(0, i as int));
    }
    assert(v@ =~= s@);
    v
}

/// Compares two character sequences.
pub fn chars_eq(a: &Vec<char>, b: &Vec<char>) -> (r: bool)
    ensures
        r == (a@ == b@),
{
    if a.len() != b.len() {
        return false;
    }
    let mut i: usize = 0;
    while i < a.len()
        invariant
            a@.len() == b@.len(),
            i <= a@.len(),
            forall|j: int| 0 <= j < i ==> a@[j] == b@[j],
        decreases a@.len() - i,
    {
        if a[i] != b[i] {
            return false;
        }
        i += 1;
    }
    assert(a@ =~= b@);
    true
}

/// Compares two strings by their characters.
pub fn str_eq(a: &str, b: &str) -> (r: bool)
    ensures
        r == (a@ == b@),
{
    let va = chars_of(a);
    let vb = chars_of(b);
    chars_eq(&va, &vb)
}

/// A fresh `String` holding the characters of `s`.
pub fn to_string_of(s: &str) -> (r: String)
    ensures
        r@ == s@,
{
    <String as StringExecFns>::from_str(s)
}

/// The characters of `s` from `from` up to `to`, as a `String`.
pub fn slice_of(s: &str, from: usize, to: usize) -> (r: String)
    requires
        from <= to <= s@.len(),
    ensures
        r@ == s@.subrange(from as int, to as int),
{
    let part = s.substring_char(from, to);
    to_string_of(part)
}

/// Whether `p` is a prefix of `s`.
pub fn has_prefix(s: &Vec<char>, p: &Vec<char>) -> (r: bool)
    ensures
        r == p@.is_prefix_of(s@),
{
    if p.len() > s.len() {
        return false;
    }
    let mut i: usize = 0;
    while i < p.len()
        invariant
            p@.len() <= s@.len(),
            i <= p@.len(),
            forall|j: int| 0 <= j < i ==> p@[j] == s@[j],
        decreases p@.len() - i,
    {
        if p[i] != s[i] {
            return false;
        }
        i += 1;
    }
    true
}

/// Position of the last `c` strictly before `end`, or -1.
pub open spec fn last_index_before(s: Seq<char>, c: char, end: int) -> int
    decreases end,
{
    if end <= 0 {
        -1
    } else if s[end - 1] == c {
        end - 1
    } else {
        last_index_before(s, c, end - 1)
    }
}

pub proof fn lemma_last_index_before_bounds(s: Seq<char>, c: char, end: int)
    requires
        end <= s.len(),
    ensures
        -1 <= last_index_before(s, c, end) < end || (end <= 0 && last_index_before(s, c, end) == -1),
        last_index_before(s, c, end) >= 0 ==> s[last_index_before(s, c, end)] == c,
        forall|j: int| last_index_before(s, c, end) < j < end ==> s[j] != c,
    decreases end,
{
    if end > 0 && s[end - 1] != c {
        lemma_last_index_before_bounds(s, c, end - 1);
    }
}

/// Finds the last `c` in `s[..end]`.
pub fn find_last_before(s: &Vec<char>, c: char, end: usize) -> (r: Option<usize>)
    requires
        end <= s@.len(),
    ensures
        match r {
            Some(p) => p as int == last_index_before(s@, c, end as int),
            None => last_index_before(s@, c, end as int) == -1,
        },
{
    let mut k: usize = end;
    while k > 0
        invariant
            k <= end <= s@.len(),
            last_index_before(s@, c, end as int) == last_index_before(s@, c, k as int),
        decreases k,
    {
        if s[k - 1] == c {
            return Some(k - 1);
        }
        k -= 1;
    }
    None
}

} // verus!
