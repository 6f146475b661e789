//! Ordering of listing and catalog entries: a composite sort key (group,
//! then a number or text in either direction, then a tie-breaking text) and
//! a verified sort that yields a permutation in key order.

use vstd::prelude::*;

verus! {

/// Three-way comparison of strings by characters (the order of their UTF-8
/// bytes): -1, 0 or 1.
pub open spec fn lex_cmp(a: Seq<char>, b: Seq<char>) -> int
    decreases a.len(),
{
    if a.len() == 0 && b.len() == 0 {
        0
    } else if a.len() == 0 {
        -1
    } else if b.len() == 0 {
        1
    } else if a[0] != b[0] {
        if a[0] < b[0] {
            -1
        } else {
            1
        }
    } else {
        lex_cmp(a.drop_first(), b.drop_first())
    }
}

pub proof fn lemma_lex_cmp_props(a: Seq<char>, b: Seq<char>)
    ensures
        lex_cmp(a, b) == -lex_cmp(b, a),
        -1 <= lex_cmp(a, b) <= 1,
        lex_cmp(a, b) == 0 <==> a == b,
    decreases a.len(),
{
    if a.len() > 0 && b.len() > 0 && a[0] == b[0] {
        lemma_lex_cmp_props(a.drop_first(), b.drop_first());
        if a.drop_first() == b.drop_first() {
            assert(a =~= seq![a[0]] + a.drop_first());
            assert(b =~= seq![b[0]] + b.drop_first());
        }
    }
    if a.len() == 0 && b.len() == 0 {
        assert(a =~= b);
    }
}

pub proof fn lemma_lex_cmp_trans(a: Seq<char>, b: Seq<char>, c: Seq<char>)
    requires
        lex_cmp(a, b) <= 0,
        lex_cmp(b, c) <= 0,
    ensures
        lex_cmp(a, c) <= 0,
    decreases a.len(),
{
    if a.len() > 0 && b.len() > 0 && c.len() > 0 && a[0] == b[0] && b[0] == c[0] {
        lemma_lex_cmp_trans(a.drop_first(), b.drop_first(), c.drop_first());
    }
}

/// A sort key. Keys compare by `group` (ascending), then by `num` and then
/// `text` (a missing text first), ascending or, when `desc`, descending;
/// then by `tie` ascending.
pub struct SortKey {
    pub group: u8,
    pub num: i64,
    pub text: Option<Vec<char>>,
    pub desc: bool,
    pub tie: Vec<char>,
}

pub struct KeyView {
    pub group: int,
    pub num: int,
    pub text: Option<Seq<char>>,
    pub desc: bool,
    pub tie: Seq<char>,
}

impl View for SortKey {
    type V = KeyView;

    open spec fn view(&self) -> KeyView {
        KeyView {
            group: self.group as int,
            num: self.num as int,
            text: match self.text {
                Some(t) => Some(t@),
                None => None,
            },
            desc: self.desc,
            tie: self.tie@,
        }
    }
}

pub open spec fn opt_text_cmp(a: Option<Seq<char>>, b: Option<Seq<char>>) -> int {
    match (a, b) {
        (None, None) => 0,
        (None, Some(_)) => -1,
        (Some(_), None) => 1,
        (Some(x), Some(y)) => lex_cmp(x, y),
    }
}

/// Comparison of the middle part of two keys, before direction.
pub open spec fn primary_cmp(a: KeyView, b: KeyView) -> int {
    if a.num < b.num {
        -1
    } else if a.num > b.num {
        1
    } else {
        opt_text_cmp(a.text, b.text)
    }
}

/// Three-way comparison of keys (of the same direction).
pub open spec fn key_cmp(a: KeyView, b: KeyView) -> int {
    if a.group < b.group {
        -1
    } else if a.group > b.group {
        1
    } else {
        let p = if a.desc {
            -primary_cmp(a, b)
        } else {
            primary_cmp(a, b)
        };
        if p != 0 {
            p
        } else {
            lex_cmp(a.tie, b.tie)
        }
    }
}

pub open spec fn key_le(a: KeyView, b: KeyView) -> bool {
    key_cmp(a, b) <= 0
}

proof fn lemma_primary_props(a: KeyView, b: KeyView)
    ensures
        primary_cmp(a, b) == -primary_cmp(b, a),
        -1 <= primary_cmp(a, b) <= 1,
        primary_cmp(a, b) == 0 <==> (a.num == b.num && a.text == b.text),
{
    match (a.text, b.text) {
        (Some(x), Some(y)) => lemma_lex_cmp_props(x, y),
        _ => {},
    }
}

/// `primary_cmp` is transitive, strictly when either step is strict.
proof fn lemma_primary_trans_up(a: KeyView, b: KeyView, c: KeyView)
    requires
        primary_cmp(a, b) <= 0,
        primary_cmp(b, c) <= 0,
    ensures
        primary_cmp(a, c) <= 0,
        primary_cmp(a, c) == 0 ==> primary_cmp(a, b) == 0 && primary_cmp(b, c) == 0,
{
    lemma_primary_props(a, b);
    lemma_primary_props(b, c);
    lemma_primary_props(a, c);
    if a.num == b.num && b.num == c.num {
        match (a.text, b.text, c.text) {
            (Some(x), Some(y), Some(z)) => {
                lemma_lex_cmp_trans(x, y, z);
            },
            _ => {},
        }
    }
    if primary_cmp(a, c) == 0 {
        lemma_primary_props(b, a);
        lemma_primary_props(c, b);
    }
}

pub open spec fn directed(desc: bool, c: int) -> int {
    if desc {
        -c
    } else {
        c
    }
}

proof fn lemma_primary_trans(a: KeyView, b: KeyView, c: KeyView, desc: bool)
    requires
        directed(desc, primary_cmp(a, b)) <= 0,
        directed(desc, primary_cmp(b, c)) <= 0,
    ensures
        directed(desc, primary_cmp(a, c)) <= 0,
        directed(desc, primary_cmp(a, c)) == 0 ==> primary_cmp(a, b) == 0 && primary_cmp(b, c) == 0,
{
    lemma_primary_props(a, b);
    lemma_primary_props(b, c);
    lemma_primary_props(a, c);
    if !desc {
        lemma_primary_trans_up(a, b, c);
    } else {
        lemma_primary_props(b, a);
        lemma_primary_props(c, b);
        lemma_primary_props(c, a);
        lemma_primary_trans_up(c, b, a);
    }
}

/// Keys of one direction are totally preordered.
pub proof fn lemma_key_total(a: KeyView, b: KeyView)
    requires
        a.desc == b.desc,
    ensures
        key_le(a, b) || key_le(b, a),
        key_cmp(a, b) == -key_cmp(b, a),
{
    lemma_primary_props(a, b);
    lemma_lex_cmp_props(a.tie, b.tie);
}

pub proof fn lemma_key_trans(a: KeyView, b: KeyView, c: KeyView)
    requires
        a.desc == b.desc,
        b.desc == c.desc,
        key_le(a, b),
        key_le(b, c),
    ensures
        key_le(a, c),
{
    lemma_primary_props(a, b);
    lemma_primary_props(b, c);
    lemma_primary_props(a, c);
    if a.group == b.group && b.group == c.group {
        lemma_primary_trans(a, b, c, a.desc);
        if directed(a.desc, primary_cmp(a, c)) == 0 {
            lemma_lex_cmp_trans(a.tie, b.tie, c.tie);
        }
    }
}

pub open spec fn keys_view(v: Seq<SortKey>) -> Seq<KeyView> {
    v.map_values(|k: SortKey| k@)
}

/// `order` lists each index below `n` exactly once.
pub open spec fn is_permutation(order: Seq<usize>, n: nat) -> bool {
    &&& order.len() == n
    &&& forall|i: int| 0 <= i < order.len() ==> (#[trigger] order[i]) < n
    &&& order.no_duplicates()
}

/// `order` visits the keys in key order.
pub open spec fn sorted_by(keys: Seq<KeyView>, order: Seq<usize>) -> bool {
    forall|i: int, j: int| 0 <= i < j < order.len() ==> key_le(
        #[trigger] keys[order[i] as int],
        #[trigger] keys[order[j] as int],
    )
}

pub fn lex_cmp_exec(a: &Vec<char>, b: &Vec<char>) -> (r: i8)
    ensures
        r as int == lex_cmp(a@, b@),
{
    let mut i: usize = 0;
    assert(a@.skip(0) =~= a@);
    assert(b@.skip(0) =~= b@);
    loop
        invariant
            i <= a@.len(),
            i <= b@.len(),
            lex_cmp(a@, b@) == lex_cmp(a@.skip(i as int), b@.skip(i as int)),
        decreases a@.len() - i,
    {
        if i == a.len() && i == b.len() {
            return 0;
        }
        if i == a.len() {
            return -1;
        }
        if i == b.len() {
            return 1;
        }
        let ca = a[i];
        let cb = b[i];
        if ca != cb {
            return if ca < cb {
                -1
            } else {
                1
            };
        }
        assert(a@.skip(i as int).drop_first() =~= a@.skip(i + 1));
        assert(b@.skip(i as int).drop_first() =~= b@.skip(i + 1));
        i += 1;
    }
}

pub fn key_cmp_exec(a: &SortKey, b: &SortKey) -> (r: i8)
    ensures
        r as int == key_cmp(a@, b@),
{
    if a.group < b.group {
        return -1;
    }
    if a.group > b.group {
        return 1;
    }
    let p: i8 = if a.num < b.num {
        -1
    } else if a.num > b.num {
        1
    } else {
        match (&a.text, &b.text) {
            (None, None) => 0,
            (None, Some(_)) => -1,
            (Some(_), None) => 1,
            (Some(x), Some(y)) => lex_cmp_exec(x, y),
        }
    };
    proof {
        lemma_primary_props(a@, b@);
    }
    let p: i8 = if a.desc {
        -p
    } else {
        p
    };
    if p != 0 {
        p
    } else {
        lex_cmp_exec(&a.tie, &b.tie)
    }
}

/// The order in which to visit `keys` (all of one direction): a
/// permutation of their indices under which they are in key order, equal
/// keys keeping their relative order.
pub fn sort_order(keys: &Vec<SortKey>) -> (order: Vec<usize>)
    requires
        forall|i: int, j: int| 0 <= i < keys@.len() && 0 <= j < keys@.len() ==> (#[trigger] keys@[i]).desc == (#[trigger] keys@[j]).desc,
    ensures
        is_permutation(order@, keys@.len()),
        sorted_by(keys_view(keys@), order@),
{
    let ghost kv = keys_view(keys@);
    let mut order: Vec<usize> = Vec::new();
    let mut i: usize = 0;
    while i < keys.len()
        invariant
            kv == keys_view(keys@),
            forall|a: int, b: int| 0 <= a < keys@.len() && 0 <= b < keys@.len() ==> (#[trigger] keys@[a]).desc == (#[trigger] keys@[b]).desc,
            i <= keys@.len(),
            is_permutation(order@, i as nat),
            sorted_by(kv, order@),
        decreases keys@.len() - i,
    {
        // Insert `i` after every key not above it.
        let mut pos: usize = 0;
        while pos < order.len() && key_cmp_exec(&keys[order[pos]], &keys[i]) <= 0
            invariant
                kv == keys_view(keys@),
                i < keys@.len(),
                pos <= order@.len(),
                is_permutation(order@, i as nat),
                forall|k: int| 0 <= k < pos ==> key_le(#[trigger] kv[order@[k] as int], kv[i as int]),
            decreases order@.len() - pos,
        {
            pos += 1;
        }
        let ghost old_order = order@;
        order.insert(pos, i);
        assert(order@ == old_order.insert(pos as int, i));
        proof {
            assert forall|a: int, b: int| 0 <= a < b < order@.len() implies key_le(
                #[trigger] kv[order@[a] as int],
                #[trigger] kv[order@[b] as int],
            ) by {
                let oa = order@[a] as int;
                let ob = order@[b] as int;
                assert(kv[oa].desc == kv[ob].desc) by {
                    assert(keys@[oa].desc == keys@[ob].desc);
                }
                if a < pos && b < pos {
                    assert(oa == old_order[a] as int && ob == old_order[b] as int);
                } else if a < pos && b == pos {
                } else if a < pos && b > pos {
                    assert(oa == old_order[a] as int && ob == old_order[b - 1] as int);
                    // old_order[a] <= i <= old_order[pos] <= old_order[b - 1]
                    let op = old_order[pos as int] as int;
                    assert(!key_le(kv[op], kv[i as int]));
                    assert(kv[op].desc == kv[i as int].desc) by {
                        assert(keys@[op].desc == keys@[i as int].desc);
                    }
                    lemma_key_total(kv[op], kv[i as int]);
                    if b - 1 > pos {
                        assert(key_le(kv[op], kv[ob]));
                        assert(kv[i as int].desc == kv[ob].desc) by {
                            assert(keys@[i as int].desc == keys@[ob].desc);
                        }
                        lemma_key_trans(kv[i as int], kv[op], kv[ob]);
                    }
                    assert(kv[oa].desc == kv[i as int].desc) by {
                        assert(keys@[oa].desc == keys@[i as int].desc);
                    }
                    lemma_key_trans(kv[oa], kv[i as int], kv[ob]);
                } else if a == pos {
                    assert(ob == old_order[b - 1] as int);
                    let op = old_order[pos as int] as int;
                    assert(!key_le(kv[op], kv[i as int]));
                    assert(kv[op].desc == kv[i as int].desc) by {
                        assert(keys@[op].desc == keys@[i as int].desc);
                    }
                    lemma_key_total(kv[op], kv[i as int]);
                    if b - 1 > pos {
                        assert(key_le(kv[op], kv[ob]));
                        assert(kv[i as int].desc == kv[ob].desc) by {
                            assert(keys@[i as int].desc == keys@[ob].desc);
                        }
                        lemma_key_trans(kv[i as int], kv[op], kv[ob]);
                    }
                } else {
                    assert(oa == old_order[a - 1] as int && ob == old_order[b - 1] as int);
                }
            }
            assert forall|a: int, b: int| 0 <= a < order@.len() && 0 <= b < order@.len() && a != b
                implies order@[a] != order@[b] by {
                if a != pos && b != pos {
                    let a2 = if a < pos { a } else { a - 1 };
                    let b2 = if b < pos { b } else { b - 1 };
                    assert(order@[a] == old_order[a2] && order@[b] == old_order[b2]);
                } else if a == pos {
                    let b2 = if b < pos { b } else { b - 1 };
                    assert(order@[b] == old_order[b2]);
                } else {
                    let a2 = if a < pos { a } else { a - 1 };
                    assert(order@[a] == old_order[a2]);
                }
            }
            assert forall|k: int| 0 <= k < order@.len() implies (#[trigger] order@[k]) < i + 1 by {
                if k < pos {
                    assert(order@[k] == old_order[k]);
                } else if k > pos {
                    assert(order@[k] == old_order[k - 1]);
                }
            }
        }
        i += 1;
    }
    order
}

/// Whether `a` comes no later than `b` in string order.
pub fn str_le(a: &str, b: &str) -> (r: bool)
    ensures
        r == (lex_cmp(a@, b@) <= 0),
{
    let va = crate::text::chars_of(a);
    let vb = crate::text::chars_of(b);
    lex_cmp_exec(&va, &vb) <= 0
}

} // verus!
