//! The order in which nodes are processed: by UUID, as `str`'s `Ord` compares
//! them (character by character, then by length), keeping the given order
//! among equal UUIDs.

use vstd::prelude::*;

verus! {

/// Whether `a` comes before `b`: lexicographic by character, a proper
/// prefix first (the order of `str`, as UTF-8 preserves code point order).
pub open spec fn text_less(a: Seq<char>, b: Seq<char>) -> bool
    decreases a.len(),
{
    if a.len() == 0 {
        b.len() > 0
    } else if b.len() == 0 {
        false
    } else if a[0] != b[0] {
        a[0] < b[0]
    } else {
        text_less(a.drop_first(), b.drop_first())
    }
}

/// `order` with `x` inserted after every element whose key is not greater
/// than `x`'s (at the back, moving forward past greater keys).
pub open spec fn insert_by_key(order: Seq<int>, x: int, keys: Seq<Seq<char>>) -> Seq<int>
    decreases order.len(),
{
    if order.len() == 0 || !text_less(keys[x], keys[order.last()]) {
        order.push(x)
    } else {
        insert_by_key(order.drop_last(), x, keys).push(order.last())
    }
}

/// The indices `0..n` in key order; equal keys keep their index order.
pub open spec fn sorted_prefix(keys: Seq<Seq<char>>, n: nat) -> Seq<int>
    decreases n,
{
    if n == 0 {
        Seq::empty()
    } else {
        insert_by_key(sorted_prefix(keys, (n - 1) as nat), n - 1, keys)
    }
}

/// The indices of `keys` in key order; equal keys keep their index order.
pub open spec fn key_order(keys: Seq<Seq<char>>) -> Seq<int> {
    sorted_prefix(keys, keys.len())
}

/// Whether `a` comes before `b`.
pub fn text_before(a: &Vec<char>, b: &Vec<char>) -> (r: bool)
    ensures
        r == text_less(a@, b@),
{
    let n = a.len();
    let m = b.len();
    let mut i: usize = 0;
    proof {
        assert(a@.skip(0) == a@);
        assert(b@.skip(0) == b@);
    }
    while i < n && i < m && a[i] == b[i]
        invariant
            i <= n == a@.len(),
            i <= m == b@.len(),
            text_less(a@, b@) == text_less(a@.skip(i as int), b@.skip(i as int)),
        decreases n - i,
    {
        proof {
            assert(a@.skip(i as int).drop_first() == a@.skip(i + 1));
            assert(b@.skip(i as int).drop_first() == b@.skip(i + 1));
        }
        i = i + 1;
    }
    if i == n {
        i < m
    } else if i == m {
        false
    } else {
        a[i] < b[i]
    }
}

proof fn lemma_insert_at(order: Seq<int>, x: int, keys: Seq<Seq<char>>, p: int)
    requires
        0 <= p <= order.len(),
        forall|q: int| p <= q < order.len() ==> text_less(keys[x], keys[#[trigger] order[q]]),
        p > 0 ==> !text_less(keys[x], keys[order[p - 1]]),
    ensures
        insert_by_key(order, x, keys) == order.insert(p, x),
    decreases order.len(),
{
    if order.len() == 0 {
        assert(order.insert(p, x) == seq![x]);
    } else if !text_less(keys[x], keys[order.last()]) {
        assert(p == order.len());
        assert(order.insert(p, x) == order.push(x));
    } else {
        let t = order.drop_last();
        assert forall|q: int| p <= q < t.len() implies text_less(keys[x], keys[#[trigger] t[q]]) by {
            assert(t[q] == order[q]);
        }
        if p > 0 {
            assert(t[p - 1] == order[p - 1]);
        }
        lemma_insert_at(t, x, keys, p);
        assert(t.insert(p, x).push(order.last()) == order.insert(p, x));
    }
}

/// The indices of `keys` in key order, equal keys in index order.
pub fn key_sorted_indices(keys: &Vec<Vec<char>>) -> (r: Vec<usize>)
    ensures
        r@.len() == keys@.len(),
        forall|k: int| 0 <= k < r@.len() ==> #[trigger] r@[k] < keys@.len(),
        r@.map_values(|u: usize| u as int) == key_order(keys@.map_values(|v: Vec<char>| v@)),
{
    let ghost kv = keys@.map_values(|v: Vec<char>| v@);
    let n = keys.len();
    let mut order: Vec<usize> = Vec::new();
    let mut x: usize = 0;
    while x < n
        invariant
            x <= n == keys@.len(),
            kv == keys@.map_values(|v: Vec<char>| v@),
            order@.len() == x,
            forall|k: int| 0 <= k < order@.len() ==> #[trigger] order@[k] < x,
            order@.map_values(|u: usize| u as int) == sorted_prefix(kv, x as nat),
        decreases n - x,
    {
        let ghost before = order@.map_values(|u: usize| u as int);
        let mut p = order.len();
        while p > 0 && text_before(&keys[x], &keys[order[p - 1]])
            invariant
                p <= order@.len(),
                x < n == keys@.len(),
                forall|k: int| 0 <= k < order@.len() ==> #[trigger] order@[k] < x,
                before == order@.map_values(|u: usize| u as int),
                kv == keys@.map_values(|v: Vec<char>| v@),
                forall|q: int|
                    p <= q < order@.len() ==> text_less(kv[x as int], kv[#[trigger] before[q]]),
            decreases p,
        {
            proof {
                assert(kv[order@[p - 1] as int] == keys@[order@[p - 1] as int]@);
            }
            p = p - 1;
        }
        proof {
            if p > 0 {
                assert(kv[order@[p - 1] as int] == keys@[order@[p - 1] as int]@);
                assert(before[p - 1] == order@[p - 1] as int);
            }
            lemma_insert_at(before, x as int, kv, p as int);
        }
        let ghost old_order = order@;
        order.insert(p, x);
        proof {
            assert(order@ == old_order.insert(p as int, x));
            assert(order@.map_values(|u: usize| u as int) == before.insert(p as int, x as int));
            assert forall|k: int| 0 <= k < order@.len() implies #[trigger] order@[k] < x + 1 by {
                if k < p {
                    assert(order@[k] == old_order[k]);
                } else if k > p {
                    assert(order@[k] == old_order[k - 1]);
                }
            }
        }
        x = x + 1;
    }
    order
}

/// The order of texts is the lexicographic one: `a` comes before `b`
/// exactly where, at the first position where they differ, `a` has the
/// smaller character, or `a` is a proper prefix of `b`.
pub proof fn law_text_order(a: Seq<char>, b: Seq<char>)
    ensures
        text_less(a, b) <==> ((exists|i: int|
            0 <= i < a.len() && i < b.len() && a.take(i) == b.take(i) && #[trigger] a[i] < b[i]) || (
        a.len() < b.len() && a == b.take(a.len() as int))),
    decreases a.len(),
{
    if a.len() > 0 && b.len() > 0 {
        let a1 = a.drop_first();
        let b1 = b.drop_first();
        law_text_order(a1, b1);
        if a[0] != b[0] {
            assert(a.take(0) =~= b.take(0));
            if a[0] < b[0] {
                assert(a[0] < b[0]);
            } else {
                assert forall|i: int|
                    0 <= i < a.len() && i < b.len() && a.take(i) == b.take(i) implies !(#[trigger] a[i]
                    < b[i]) by {
                    if i > 0 {
                        assert(a.take(i)[0] == b.take(i)[0]);
                    }
                }
                if a.len() < b.len() && a == b.take(a.len() as int) {
                    assert(a[0] == b.take(a.len() as int)[0]);
                }
            }
        } else {
            if exists|i: int| 0 <= i < a1.len() && i < b1.len() && a1.take(i) == b1.take(i) && #[trigger] a1[i] < b1[i] {
                let i = choose|i: int| 0 <= i < a1.len() && i < b1.len() && a1.take(i) == b1.take(i) && #[trigger] a1[i] < b1[i];
                assert(a.take(i + 1) =~= seq![a[0]] + a1.take(i));
                assert(b.take(i + 1) =~= seq![b[0]] + b1.take(i));
                assert(a[i + 1] < b[i + 1]);
            }
            if exists|i: int| 0 <= i < a.len() && i < b.len() && a.take(i) == b.take(i) && #[trigger] a[i] < b[i] {
                let i = choose|i: int| 0 <= i < a.len() && i < b.len() && a.take(i) == b.take(i) && #[trigger] a[i] < b[i];
                assert(i > 0);
                assert(a1.take(i - 1) =~= a.take(i).drop_first());
                assert(b1.take(i - 1) =~= b.take(i).drop_first());
                assert(a1[i - 1] < b1[i - 1]);
            }
            if a1.len() < b1.len() && a1 == b1.take(a1.len() as int) {
                assert forall|x: int| 0 <= x < a.len() implies #[trigger] a[x] == b[x] by {
                    if x > 0 {
                        assert(a[x] == a1[x - 1]);
                        assert(b[x] == b1[x - 1]);
                        assert(b1.take(a1.len() as int)[x - 1] == b1[x - 1]);
                    }
                }
                assert(a =~= b.take(a.len() as int));
            }
            if a.len() < b.len() && a == b.take(a.len() as int) {
                assert(a1 =~= b1.take(a1.len() as int));
            }
        }
    } else if a.len() == 0 {
        assert(a =~= b.take(0));
    } else {
        assert(b.len() == 0);
    }
}

} // verus!

verus! {

pub proof fn lemma_less_irreflexive(a: Seq<char>)
    ensures
        !text_less(a, a),
    decreases a.len(),
{
    if a.len() > 0 {
        lemma_less_irreflexive(a.drop_first());
    }
}

pub proof fn lemma_less_asymmetric(a: Seq<char>, b: Seq<char>)
    ensures
        text_less(a, b) ==> !text_less(b, a),
    decreases a.len(),
{
    if a.len() > 0 && b.len() > 0 && a[0] == b[0] {
        lemma_less_asymmetric(a.drop_first(), b.drop_first());
    }
}

pub proof fn lemma_less_transitive(a: Seq<char>, b: Seq<char>, c: Seq<char>)
    ensures
        text_less(a, b) && text_less(b, c) ==> text_less(a, c),
    decreases a.len(),
{
    if a.len() > 0 && b.len() > 0 && c.len() > 0 && a[0] == b[0] && b[0] == c[0] {
        lemma_less_transitive(a.drop_first(), b.drop_first(), c.drop_first());
    }
}

pub proof fn lemma_less_total(a: Seq<char>, b: Seq<char>)
    ensures
        a != b ==> text_less(a, b) || text_less(b, a),
    decreases a.len(),
{
    if a.len() > 0 && b.len() > 0 && a[0] == b[0] {
        lemma_less_total(a.drop_first(), b.drop_first());
        if a.drop_first() == b.drop_first() {
            assert(a == seq![a[0]] + a.drop_first());
            assert(b == seq![b[0]] + b.drop_first());
        }
    } else if a.len() == 0 && b.len() == 0 {
        assert(a == b);
    }
}

/// Each element's key comes before the next element's.
pub open spec fn sorted_by_key<T>(s: Seq<T>, key: spec_fn(T) -> Seq<char>) -> bool {
    forall|i: int, j: int|
        0 <= i < j < s.len() ==> text_less(key(#[trigger] s[i]), key(#[trigger] s[j]))
}

/// Two sequences that are each sorted by a key, with no key twice, and hold
/// the same elements are the same sequence.
pub proof fn lemma_sorted_unique<T>(a: Seq<T>, b: Seq<T>, key: spec_fn(T) -> Seq<char>)
    requires
        sorted_by_key(a, key),
        sorted_by_key(b, key),
        forall|x: T| a.contains(x) <==> b.contains(x),
    ensures
        a == b,
    decreases a.len(),
{
    if a.len() == 0 {
        if b.len() > 0 {
            assert(b.contains(b[0]));
        }
        assert(a == b);
    } else {
        assert(a.contains(a[0]));
        let k = choose|k: int| 0 <= k < b.len() && b[k] == a[0];
        assert(b.contains(b[0]));
        let m = choose|m: int| 0 <= m < a.len() && a[m] == b[0];
        if k > 0 {
            if m > 0 {
                lemma_less_asymmetric(key(a[0]), key(a[m]));
            } else {
                lemma_less_irreflexive(key(a[0]));
            }
        }
        assert(a[0] == b[0]);
        let a1 = a.drop_first();
        let b1 = b.drop_first();
        assert forall|x: T| a1.contains(x) <==> b1.contains(x) by {
            if a1.contains(x) {
                let i = choose|i: int| 0 <= i < a1.len() && a1[i] == x;
                assert(a[i + 1] == x);
                assert(b.contains(x));
                let j = choose|j: int| 0 <= j < b.len() && b[j] == x;
                if j == 0 {
                    lemma_less_irreflexive(key(x));
                }
                assert(b1[j - 1] == x);
            }
            if b1.contains(x) {
                let i = choose|i: int| 0 <= i < b1.len() && b1[i] == x;
                assert(b[i + 1] == x);
                assert(a.contains(x));
                let j = choose|j: int| 0 <= j < a.len() && a[j] == x;
                if j == 0 {
                    lemma_less_irreflexive(key(x));
                }
                assert(a1[j - 1] == x);
            }
        }
        assert forall|i: int, j: int| 0 <= i < j < a1.len() implies text_less(
            key(#[trigger] a1[i]),
            key(#[trigger] a1[j]),
        ) by {
            assert(a1[i] == a[i + 1] && a1[j] == a[j + 1]);
        }
        assert forall|i: int, j: int| 0 <= i < j < b1.len() implies text_less(
            key(#[trigger] b1[i]),
            key(#[trigger] b1[j]),
        ) by {
            assert(b1[i] == b[i + 1] && b1[j] == b[j + 1]);
        }
        lemma_sorted_unique(a1, b1, key);
        assert(a == seq![a[0]] + a1);
        assert(b == seq![b[0]] + b1);
    }
}

/// Not after: `b` does not come before `a`.
pub open spec fn text_le(a: Seq<char>, b: Seq<char>) -> bool {
    !text_less(b, a)
}

proof fn lemma_le_transitive(a: Seq<char>, b: Seq<char>, c: Seq<char>)
    ensures
        text_le(a, b) && text_le(b, c) ==> text_le(a, c),
{
    lemma_less_total(a, b);
    lemma_less_transitive(c, a, b);
    if a == b {
    }
}

/// `order` lists keys in order (not after one another) and keeps index order
/// among equal keys.
pub open spec fn sorted_stably(order: Seq<int>, keys: Seq<Seq<char>>) -> bool {
    forall|i: int, j: int|
        0 <= i < j < order.len() ==> text_le(keys[#[trigger] order[i]], keys[#[trigger] order[j]])
            && (keys[order[i]] == keys[order[j]] ==> order[i] < order[j])
}

proof fn lemma_insert_by_key_position(order: Seq<int>, x: int, keys: Seq<Seq<char>>) -> (p: int)
    ensures
        0 <= p <= order.len(),
        insert_by_key(order, x, keys) == order.insert(p, x),
        forall|q: int| p <= q < order.len() ==> text_less(keys[x], keys[#[trigger] order[q]]),
        p > 0 ==> !text_less(keys[x], keys[order[p - 1]]),
    decreases order.len(),
{
    if order.len() == 0 || !text_less(keys[x], keys[order.last()]) {
        assert(order.insert(order.len() as int, x) == order.push(x));
        order.len() as int
    } else {
        let t = order.drop_last();
        let p = lemma_insert_by_key_position(t, x, keys);
        assert(t.insert(p, x).push(order.last()) == order.insert(p, x));
        assert forall|q: int| p <= q < order.len() implies text_less(
            keys[x],
            keys[#[trigger] order[q]],
        ) by {
            if q < order.len() - 1 {
                assert(order[q] == t[q]);
            }
        }
        if p > 0 {
            assert(order[p - 1] == t[p - 1]);
        }
        p
    }
}

proof fn lemma_sorted_prefix(keys: Seq<Seq<char>>, n: nat)
    requires
        n <= keys.len(),
    ensures
        sorted_prefix(keys, n).len() == n,
        forall|k: int| 0 <= k < n ==> 0 <= #[trigger] sorted_prefix(keys, n)[k] < n,
        forall|i: int| 0 <= i < n ==> sorted_prefix(keys, n).contains(i),
        forall|a: int, b: int|
            0 <= a < b < n ==> #[trigger] sorted_prefix(keys, n)[a] != #[trigger] sorted_prefix(
                keys,
                n,
            )[b],
        sorted_stably(sorted_prefix(keys, n), keys),
    decreases n,
{
    if n > 0 {
        let m = (n - 1) as nat;
        lemma_sorted_prefix(keys, m);
        let old_order = sorted_prefix(keys, m);
        let x = n - 1;
        let p = lemma_insert_by_key_position(old_order, x, keys);
        let o = sorted_prefix(keys, n);
        assert(o == old_order.insert(p, x));
        assert forall|k: int| 0 <= k < n implies 0 <= #[trigger] o[k] < n by {
            if k < p {
                assert(o[k] == old_order[k]);
            } else if k > p {
                assert(o[k] == old_order[k - 1]);
            }
        }
        assert forall|i: int| 0 <= i < n implies o.contains(i) by {
            if i == x {
                assert(o[p] == x);
            } else {
                assert(old_order.contains(i));
                let k = choose|k: int| 0 <= k < old_order.len() && old_order[k] == i;
                if k < p {
                    assert(o[k] == i);
                } else {
                    assert(o[k + 1] == i);
                }
            }
        }
        assert forall|a: int, b: int| 0 <= a < b < n implies #[trigger] o[a] != #[trigger] o[b] by {
            if a < p && b < p {
                assert(o[a] == old_order[a] && o[b] == old_order[b]);
            } else if a < p && b == p {
                assert(o[a] == old_order[a]);
            } else if a < p && b > p {
                assert(o[a] == old_order[a] && o[b] == old_order[b - 1]);
            } else if a == p {
                assert(o[b] == old_order[b - 1]);
            } else {
                assert(o[a] == old_order[a - 1] && o[b] == old_order[b - 1]);
            }
        }
        assert forall|i: int, j: int| 0 <= i < j < o.len() implies text_le(
            keys[#[trigger] o[i]],
            keys[#[trigger] o[j]],
        ) && (keys[o[i]] == keys[o[j]] ==> o[i] < o[j]) by {
            if j < p {
                assert(o[i] == old_order[i] && o[j] == old_order[j]);
            } else if i > p {
                assert(o[i] == old_order[i - 1] && o[j] == old_order[j - 1]);
            } else if i < p && j > p {
                assert(o[i] == old_order[i] && o[j] == old_order[j - 1]);
                lemma_less_asymmetric(keys[x], keys[o[j]]);
                lemma_less_irreflexive(keys[o[j]]);
                if p > 0 {
                    assert(old_order[p - 1] == o[p - 1]);
                    if i < p - 1 {
                        assert(text_le(keys[o[i]], keys[old_order[p - 1]]));
                    }
                    lemma_le_transitive(keys[o[i]], keys[old_order[p - 1]], keys[x]);
                    lemma_le_transitive(keys[o[i]], keys[x], keys[o[j]]);
                }
            } else if j == p {
                assert(o[i] == old_order[i]);
                assert(old_order[p - 1] == o[p - 1]);
                if i < p - 1 {
                    assert(text_le(keys[o[i]], keys[old_order[p - 1]]));
                }
                lemma_le_transitive(keys[o[i]], keys[old_order[p - 1]], keys[x]);
            } else {
                assert(i == p);
                assert(o[j] == old_order[j - 1]);
                lemma_less_asymmetric(keys[x], keys[o[j]]);
                lemma_less_irreflexive(keys[o[j]]);
            }
        }
    }
}

/// The processing order is a permutation of the indices that lists keys in
/// order, equal keys in index order.
pub proof fn law_key_order(keys: Seq<Seq<char>>)
    ensures
        key_order(keys).len() == keys.len(),
        forall|k: int| 0 <= k < keys.len() ==> 0 <= #[trigger] key_order(keys)[k] < keys.len(),
        forall|i: int| 0 <= i < keys.len() ==> key_order(keys).contains(i),
        forall|a: int, b: int|
            0 <= a < b < keys.len() ==> #[trigger] key_order(keys)[a] != #[trigger] key_order(
                keys,
            )[b],
        sorted_stably(key_order(keys), keys),
{
    lemma_sorted_prefix(keys, keys.len());
}

} // verus!

verus! {

/// Whether `a` comes before `b` (see `text_less`).
pub fn str_before(a: &str, b: &str) -> (r: bool)
    ensures
        r == text_less(a@, b@),
{
    let n = a.unicode_len();
    let m = b.unicode_len();
    let mut i: usize = 0;
    proof {
        assert(a@.skip(0) == a@);
        assert(b@.skip(0) == b@);
    }
    while i < n && i < m && a.get_char(i) == b.get_char(i)
        invariant
            i <= n == a@.len(),
            i <= m == b@.len(),
            text_less(a@, b@) == text_less(a@.skip(i as int), b@.skip(i as int)),
        decreases n - i,
    {
        proof {
            assert(a@.skip(i as int).drop_first() == a@.skip(i + 1));
            assert(b@.skip(i as int).drop_first() == b@.skip(i + 1));
        }
        i = i + 1;
    }
    if i == n {
        i < m
    } else if i == m {
        false
    } else {
        a.get_char(i) < b.get_char(i)
    }
}

} // verus!
