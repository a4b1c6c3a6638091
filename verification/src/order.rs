//! Orders on paths and texts, and a stable sort that lists indices in
//! that order.
//!
//! Texts compare character by character (for UTF-8 this is the byte order
//! `String` uses); paths compare component by component, as `Path` does
//! for relative paths of normal components.

use vstd::prelude::*;
use crate::config::seqs;
use crate::paths::{components, components_exec};

verus! {

/// Strict lexicographic order on texts.
pub open spec fn text_lt(a: Seq<char>, b: Seq<char>) -> bool
    decreases a.len(),
{
    if a.len() == 0 {
        b.len() > 0
    } else if b.len() == 0 {
        false
    } else if a[0] != b[0] {
        a[0] < b[0]
    } else {
        text_lt(a.drop_first(), b.drop_first())
    }
}

/// Strict lexicographic order on component lists.
pub open spec fn comps_lt(a: Seq<Seq<char>>, b: Seq<Seq<char>>) -> bool
    decreases a.len(),
{
    if a.len() == 0 {
        b.len() > 0
    } else if b.len() == 0 {
        false
    } else if a[0] != b[0] {
        text_lt(a[0], b[0])
    } else {
        comps_lt(a.drop_first(), b.drop_first())
    }
}

pub proof fn lemma_text_lt_irrefl(a: Seq<char>)
    ensures
        !text_lt(a, a),
    decreases a.len(),
{
    if a.len() > 0 {
        lemma_text_lt_irrefl(a.drop_first());
    }
}

pub proof fn lemma_text_lt_trans(a: Seq<char>, b: Seq<char>, c: Seq<char>)
    requires
        text_lt(a, b),
        text_lt(b, c),
    ensures
        text_lt(a, c),
    decreases a.len(),
{
    if a.len() > 0 && b.len() > 0 && c.len() > 0 && a[0] == b[0] && b[0] == c[0] {
        lemma_text_lt_trans(a.drop_first(), b.drop_first(), c.drop_first());
    }
}

pub proof fn lemma_text_lt_total(a: Seq<char>, b: Seq<char>)
    ensures
        text_lt(a, b) || text_lt(b, a) || a == b,
    decreases a.len(),
{
    if a.len() > 0 && b.len() > 0 {
        if a[0] == b[0] {
            lemma_text_lt_total(a.drop_first(), b.drop_first());
            if a.drop_first() == b.drop_first() {
                assert(a =~= seq![a[0]] + a.drop_first());
                assert(b =~= seq![b[0]] + b.drop_first());
            }
        }
    } else if a.len() == 0 && b.len() == 0 {
        assert(a =~= b);
    }
}

pub proof fn lemma_comps_lt_irrefl(a: Seq<Seq<char>>)
    ensures
        !comps_lt(a, a),
    decreases a.len(),
{
    if a.len() > 0 {
        lemma_comps_lt_irrefl(a.drop_first());
    }
}

pub proof fn lemma_comps_lt_trans(a: Seq<Seq<char>>, b: Seq<Seq<char>>, c: Seq<Seq<char>>)
    requires
        comps_lt(a, b),
        comps_lt(b, c),
    ensures
        comps_lt(a, c),
    decreases a.len(),
{
    if a.len() > 0 && b.len() > 0 && c.len() > 0 {
        if a[0] == b[0] && b[0] == c[0] {
            lemma_comps_lt_trans(a.drop_first(), b.drop_first(), c.drop_first());
        } else if a[0] == b[0] {
        } else if b[0] == c[0] {
        } else {
            lemma_text_lt_trans(a[0], b[0], c[0]);
            if a[0] == c[0] {
                lemma_text_lt_irrefl(a[0]);
                lemma_text_lt_trans(c[0], b[0], c[0]);
            }
        }
    }
}

pub proof fn lemma_comps_lt_total(a: Seq<Seq<char>>, b: Seq<Seq<char>>)
    ensures
        comps_lt(a, b) || comps_lt(b, a) || a == b,
    decreases a.len(),
{
    if a.len() > 0 && b.len() > 0 {
        if a[0] == b[0] {
            lemma_comps_lt_total(a.drop_first(), b.drop_first());
            if a.drop_first() == b.drop_first() {
                assert(a =~= seq![a[0]] + a.drop_first());
                assert(b =~= seq![b[0]] + b.drop_first());
            }
        } else {
            lemma_text_lt_total(a[0], b[0]);
        }
    } else if a.len() == 0 && b.len() == 0 {
        assert(a =~= b);
    }
}

pub open spec fn path_keys(paths: Seq<String>) -> Seq<Seq<Seq<char>>> {
    Seq::new(paths.len(), |i: int| components(paths[i]@))
}

/// The indices of relative paths in `Path` order (component by component),
/// ties kept in their given order.
pub fn path_order(paths: &Vec<String>) -> (order: Vec<usize>)
    ensures
        is_permutation(order@, paths.len() as nat),
        is_stably_sorted(order@, path_keys(paths@)),
{
    let mut keys: Vec<Vec<Vec<char>>> = Vec::new();
    let mut i: usize = 0;
    while i < paths.len()
        invariant
            i <= paths.len(),
            keys.len() == i,
            forall|k: int| 0 <= k < i ==> keys_view(keys@)[k] == #[trigger] path_keys(paths@)[k],
        decreases paths.len() - i,
    {
        let c = components_exec(paths[i].as_str());
        let ghost before = keys@;
        keys.push(c);
        proof {
            assert forall|k: int| 0 <= k < i + 1 implies keys_view(keys@)[k] == #[trigger] path_keys(paths@)[k] by {
                if k < i {
                    assert(keys@[k] == before[k]);
                    assert(keys_view(before)[k] == path_keys(paths@)[k]);
                }
            }
        }
        i = i + 1;
    }
    assert(keys_view(keys@) =~= path_keys(paths@));
    sorted_order(&keys)
}

pub open spec fn text_keys(texts: Seq<String>) -> Seq<Seq<Seq<char>>> {
    Seq::new(texts.len(), |i: int| seq![texts[i]@])
}

/// The indices of texts in `String` order, ties kept in their given order.
pub fn text_order(texts: &Vec<String>) -> (order: Vec<usize>)
    ensures
        is_permutation(order@, texts.len() as nat),
        is_stably_sorted(order@, text_keys(texts@)),
{
    let mut keys: Vec<Vec<Vec<char>>> = Vec::new();
    let mut i: usize = 0;
    while i < texts.len()
        invariant
            i <= texts.len(),
            keys.len() == i,
            forall|k: int| 0 <= k < i ==> keys_view(keys@)[k] == #[trigger] text_keys(texts@)[k],
        decreases texts.len() - i,
    {
        let mut one: Vec<Vec<char>> = Vec::new();
        one.push(crate::text::str_chars(texts[i].as_str()));
        assert(seqs(one@) =~= seq![texts@[i as int]@]);
        keys.push(one);
        i = i + 1;
    }
    assert(keys_view(keys@) =~= text_keys(texts@));
    sorted_order(&keys)
}

fn text_less(a: &Vec<char>, b: &Vec<char>) -> (r: bool)
    ensures
        r == text_lt(a@, b@),
{
    let mut i: usize = 0;
    assert(a@.subrange(0, a.len() as int) =~= a@);
    assert(b@.subrange(0, b.len() as int) =~= b@);
    while i < a.len() && i < b.len() && a[i] == b[i]
        invariant
            i <= a.len(),
            i <= b.len(),
            text_lt(a@, b@) == text_lt(a@.subrange(i as int, a.len() as int), b@.subrange(i as int, b.len() as int)),
        decreases a.len() - i,
    {
        assert(a@.subrange(i as int, a.len() as int).drop_first() =~= a@.subrange(i + 1, a.len() as int));
        assert(b@.subrange(i as int, b.len() as int).drop_first() =~= b@.subrange(i + 1, b.len() as int));
        i = i + 1;
    }
    if i == a.len() {
        return i < b.len();
    }
    if i == b.len() {
        return false;
    }
    a[i] < b[i]
}

fn comps_less(a: &Vec<Vec<char>>, b: &Vec<Vec<char>>) -> (r: bool)
    ensures
        r == comps_lt(seqs(a@), seqs(b@)),
{
    let mut i: usize = 0;
    assert(seqs(a@).subrange(0, a.len() as int) =~= seqs(a@));
    assert(seqs(b@).subrange(0, b.len() as int) =~= seqs(b@));
    loop
        invariant
            i <= a.len(),
            i <= b.len(),
            comps_lt(seqs(a@), seqs(b@)) == comps_lt(
                seqs(a@).subrange(i as int, a.len() as int),
                seqs(b@).subrange(i as int, b.len() as int),
            ),
        decreases a.len() - i,
    {
        let ghost sa = seqs(a@).subrange(i as int, a.len() as int);
        let ghost sb = seqs(b@).subrange(i as int, b.len() as int);
        if i == a.len() {
            return i < b.len();
        }
        if i == b.len() {
            return false;
        }
        assert(sa[0] == a@[i as int]@);
        assert(sb[0] == b@[i as int]@);
        if !crate::text::chars_eq(&a[i], &b[i]) {
            return text_less(&a[i], &b[i]);
        }
        assert(sa.drop_first() =~= seqs(a@).subrange(i + 1, a.len() as int));
        assert(sb.drop_first() =~= seqs(b@).subrange(i + 1, b.len() as int));
        i = i + 1;
    }
}

pub open spec fn keys_view(keys: Seq<Vec<Vec<char>>>) -> Seq<Seq<Seq<char>>> {
    Seq::new(keys.len(), |i: int| seqs(keys[i]@))
}

/// `order` lists each index below `n` exactly once.
pub open spec fn is_permutation(order: Seq<usize>, n: nat) -> bool {
    &&& order.len() == n
    &&& forall|i: int| 0 <= i < order.len() ==> order[i] < n
    &&& forall|i: int, j: int| 0 <= i < j < order.len() ==> order[i] != order[j]
}

/// The keys listed by `order` never decrease, and equal keys keep the
/// order of their indices.
pub open spec fn is_stably_sorted(order: Seq<usize>, keys: Seq<Seq<Seq<char>>>) -> bool {
    forall|i: int, j: int|
        0 <= i < j < order.len() ==> {
            ||| comps_lt(keys[order[i] as int], keys[order[j] as int])
            ||| (keys[order[i] as int] == keys[order[j] as int] && order[i] < order[j])
        }
}

/// The indices of `keys` in ascending key order; a stable insertion sort.
pub fn sorted_order(keys: &Vec<Vec<Vec<char>>>) -> (order: Vec<usize>)
    ensures
        is_permutation(order@, keys.len() as nat),
        is_stably_sorted(order@, keys_view(keys@)),
{
    let mut order: Vec<usize> = Vec::new();
    let mut i: usize = 0;
    while i < keys.len()
        invariant
            i <= keys.len(),
            is_permutation(order@, i as nat),
            is_stably_sorted(order@, keys_view(keys@)),
        decreases keys.len() - i,
    {
        // Find the first position whose key is greater than key i.
        let mut p: usize = order.len();
        while p > 0 && comps_less(&keys[i], &keys[order[p - 1]])
            invariant
                p <= order.len(),
                is_permutation(order@, i as nat),
                i < keys.len(),
                forall|k: int|
                    p <= k < order.len() ==> comps_lt(
                        keys_view(keys@)[i as int],
                        #[trigger] keys_view(keys@)[order@[k] as int],
                    ),
            decreases p,
        {
            assert(keys_view(keys@)[order@[p - 1] as int] == seqs(keys@[order@[p - 1] as int]@));
            p = p - 1;
        }
        proof {
            let kv = keys_view(keys@);
            if p > 0 {
                assert(kv[order@[p - 1] as int] == seqs(keys@[order@[p - 1] as int]@));
                assert(kv[i as int] == seqs(keys@[i as int]@));
            }
            // Everything before p is at most key i.
            assert forall|k: int| 0 <= k < p implies !comps_lt(kv[i as int], #[trigger] kv[order@[k] as int]) by {
                if k < p - 1 {
                    let a = kv[order@[k] as int];
                    let b = kv[order@[p - 1] as int];
                    assert(comps_lt(a, b) || (a == b && order@[k] < order@[p - 1]));
                    if comps_lt(kv[i as int], a) {
                        if comps_lt(a, b) {
                            lemma_comps_lt_trans(kv[i as int], a, b);
                        }
                    }
                }
            }
        }
        let ghost old_order = order@;
        order.insert(p, i);
        proof {
            let kv = keys_view(keys@);
            assert(order@ == old_order.insert(p as int, i));
            assert forall|a: int, b: int| 0 <= a < b < order@.len() implies ({
                ||| comps_lt(kv[order@[a] as int], kv[order@[b] as int])
                ||| (kv[order@[a] as int] == kv[order@[b] as int] && order@[a] < order@[b])
            }) by {
                if a < p && b == p {
                    let x = kv[old_order[a] as int];
                    assert(!comps_lt(kv[i as int], x));
                    lemma_comps_lt_total(x, kv[i as int]);
                    assert(old_order[a] < i);
                } else if a == p {
                    let y = kv[old_order[b - 1] as int];
                    assert(comps_lt(kv[i as int], y));
                } else if a < p && b > p {
                    assert(order@[a] == old_order[a]);
                    assert(order@[b] == old_order[b - 1]);
                } else if a > p {
                    assert(order@[a] == old_order[a - 1]);
                    assert(order@[b] == old_order[b - 1]);
                } else {
                    assert(order@[a] == old_order[a]);
                    assert(order@[b] == old_order[b]);
                }
            }
            assert forall|a: int, b: int| 0 <= a < b < order@.len() implies order@[a] != order@[b] by {
                if a == p {
                    assert(old_order[b - 1] < i);
                } else if b == p {
                    assert(old_order[a] < i);
                } else if a < p && b > p {
                    assert(order@[a] == old_order[a]);
                    assert(order@[b] == old_order[b - 1]);
                } else if a > p {
                    assert(order@[a] == old_order[a - 1]);
                    assert(order@[b] == old_order[b - 1]);
                } else {
                    assert(order@[a] == old_order[a]);
                    assert(order@[b] == old_order[b]);
                }
            }
            assert forall|a: int| 0 <= a < order@.len() implies order@[a] < i + 1 by {
                if a < p {
                    assert(order@[a] == old_order[a]);
                } else if a > p {
                    assert(order@[a] == old_order[a - 1]);
                }
            }
        }
        i = i + 1;
    }
    order
}

/// The number of components `Path` sees in `p`.
pub open spec fn depth(p: Seq<char>) -> int {
    crate::paths::path_components(p).len() as int
}

pub open spec fn depths(paths: Seq<String>) -> Seq<int> {
    Seq::new(paths.len(), |i: int| depth(paths[i]@))
}

/// `order` lists deeper paths first, and paths of equal depth in their
/// given order.
pub open spec fn is_deepest_first(order: Seq<usize>, d: Seq<int>) -> bool {
    forall|i: int, j: int|
        0 <= i < j < order.len() ==> {
            ||| d[order[i] as int] > d[order[j] as int]
            ||| (d[order[i] as int] == d[order[j] as int] && order[i] < order[j])
        }
}

/// The indices of `paths`, deepest first, ties kept in their given order,
/// so that directories can be removed bottom-up.
pub fn depth_order(paths: &Vec<String>) -> (order: Vec<usize>)
    ensures
        is_permutation(order@, paths.len() as nat),
        is_deepest_first(order@, depths(paths@)),
{
    let mut d: Vec<usize> = Vec::new();
    let mut k: usize = 0;
    while k < paths.len()
        invariant
            k <= paths.len(),
            d.len() == k,
            forall|m: int| 0 <= m < k ==> d@[m] as int == #[trigger] depths(paths@)[m],
        decreases paths.len() - k,
    {
        let c = crate::paths::path_components_exec(paths[k].as_str());
        d.push(c.len());
        k = k + 1;
    }
    let mut order: Vec<usize> = Vec::new();
    let mut i: usize = 0;
    while i < d.len()
        invariant
            i <= d.len() == paths.len(),
            forall|m: int| 0 <= m < d.len() ==> d@[m] as int == #[trigger] depths(paths@)[m],
            is_permutation(order@, i as nat),
            is_deepest_first(order@, depths(paths@)),
        decreases d.len() - i,
    {
        // Find the first position whose path is shallower than path i.
        let mut p: usize = order.len();
        while p > 0 && d[order[p - 1]] < d[i]
            invariant
                p <= order.len(),
                i < d.len() == paths.len(),
                is_permutation(order@, i as nat),
                forall|m: int| 0 <= m < d.len() ==> d@[m] as int == #[trigger] depths(paths@)[m],
                forall|k2: int|
                    p <= k2 < order.len() ==> #[trigger] depths(paths@)[order@[k2] as int] < depths(
                        paths@,
                    )[i as int],
            decreases p,
        {
            p = p - 1;
        }
        let ghost dv = depths(paths@);
        proof {
            assert forall|k2: int| 0 <= k2 < p implies dv[order@[k2] as int] >= dv[i as int] by {
                if p > 0 && k2 < p - 1 {
                    let a = order@[k2];
                    let b = order@[p - 1];
                    assert(dv[a as int] > dv[b as int] || (dv[a as int] == dv[b as int] && a < b));
                }
            }
        }
        let ghost old_order = order@;
        order.insert(p, i);
        proof {
            assert(order@ == old_order.insert(p as int, i));
            assert forall|a: int, b: int| 0 <= a < b < order@.len() implies ({
                ||| dv[order@[a] as int] > dv[order@[b] as int]
                ||| (dv[order@[a] as int] == dv[order@[b] as int] && order@[a] < order@[b])
            }) by {
                if a < p && b == p {
                    assert(old_order[a] < i);
                } else if a == p {
                    assert(order@[b] == old_order[b - 1]);
                } else if a < p && b > p {
                    assert(order@[a] == old_order[a]);
                    assert(order@[b] == old_order[b - 1]);
                } else if a > p {
                    assert(order@[a] == old_order[a - 1]);
                    assert(order@[b] == old_order[b - 1]);
                } else {
                    assert(order@[a] == old_order[a]);
                    assert(order@[b] == old_order[b]);
                }
            }
            assert forall|a: int, b: int| 0 <= a < b < order@.len() implies order@[a] != order@[b] by {
                if a == p {
                    assert(old_order[b - 1] < i);
                } else if b == p {
                    assert(old_order[a] < i);
                } else if a < p && b > p {
                    assert(order@[a] == old_order[a]);
                    assert(order@[b] == old_order[b - 1]);
                } else if a > p {
                    assert(order@[a] == old_order[a - 1]);
                    assert(order@[b] == old_order[b - 1]);
                } else {
                    assert(order@[a] == old_order[a]);
                    assert(order@[b] == old_order[b]);
                }
            }
            assert forall|a: int| 0 <= a < order@.len() implies order@[a] < i + 1 by {
                if a < p {
                    assert(order@[a] == old_order[a]);
                } else if a > p {
                    assert(order@[a] == old_order[a - 1]);
                }
            }
        }
        i = i + 1;
    }
    order
}

} // verus!
