//! A map from strings to strings, as the slug and alias tables use it: its
//! pairs are kept sorted by key, each key once.

use vstd::prelude::*;

use crate::order::{
    lemma_less_asymmetric, lemma_less_irreflexive, lemma_less_total, lemma_less_transitive,
    str_before, text_less,
};

verus! {

/// The map that a sequence of insertions builds: a later pair for a key
/// replaces an earlier one.
pub open spec fn pairs_map(s: Seq<(String, String)>) -> Map<Seq<char>, Seq<char>>
    decreases s.len(),
{
    if s.len() == 0 {
        Map::empty()
    } else {
        pairs_map(s.drop_last()).insert(s.last().0@, s.last().1@)
    }
}

/// The map takes its value for `key` from the last pair with that key.
pub proof fn lemma_pairs_map_lookup(s: Seq<(String, String)>, key: Seq<char>)
    ensures
        (forall|k: int| 0 <= k < s.len() ==> #[trigger] s[k].0@ != key) ==> !pairs_map(
            s,
        ).dom().contains(key),
        forall|i: int|
            0 <= i < s.len() && #[trigger] s[i].0@ == key && (forall|k: int|
                i < k < s.len() ==> #[trigger] s[k].0@ != key) ==> pairs_map(s).dom().contains(key)
                && pairs_map(s)[key] == s[i].1@,
    decreases s.len(),
{
    if s.len() > 0 {
        let t = s.drop_last();
        lemma_pairs_map_lookup(t, key);
        assert forall|k: int| 0 <= k < t.len() implies #[trigger] t[k] == s[k] by {}
        assert forall|i: int|
            0 <= i < s.len() && #[trigger] s[i].0@ == key && (forall|k: int|
                i < k < s.len() ==> #[trigger] s[k].0@ != key) implies pairs_map(s).dom().contains(
            key) && pairs_map(s)[key] == s[i].1@ by {
            if i < s.len() - 1 {
                assert(s[s.len() - 1].0@ != key);
                assert(t[i].0@ == key);
                assert forall|k: int| i < k < t.len() implies #[trigger] t[k].0@ != key by {
                    assert(s[k].0@ != key);
                }
            }
        }
        if forall|k: int| 0 <= k < s.len() ==> #[trigger] s[k].0@ != key {
            assert(s[s.len() - 1].0@ != key);
            assert forall|k: int| 0 <= k < t.len() implies #[trigger] t[k].0@ != key by {
                assert(s[k].0@ != key);
            }
        }
    }
}

/// Keys in strictly increasing order (so each key once).
pub open spec fn keys_increasing(s: Seq<(String, String)>) -> bool {
    forall|i: int, j: int| 0 <= i < j < s.len() ==> text_less(#[trigger] s[i].0@, #[trigger] s[j].0@)
}

proof fn lemma_increasing_lookup(s: Seq<(String, String)>, key: Seq<char>)
    requires
        keys_increasing(s),
    ensures
        (forall|k: int| 0 <= k < s.len() ==> #[trigger] s[k].0@ != key) ==> !pairs_map(
            s,
        ).dom().contains(key),
        forall|i: int|
            0 <= i < s.len() && #[trigger] s[i].0@ == key ==> pairs_map(s).dom().contains(key)
                && pairs_map(s)[key] == s[i].1@,
{
    lemma_pairs_map_lookup(s, key);
    assert forall|i: int| 0 <= i < s.len() && #[trigger] s[i].0@ == key implies pairs_map(
        s,
    ).dom().contains(key) && pairs_map(s)[key] == s[i].1@ by {
        assert forall|k: int| i < k < s.len() implies #[trigger] s[k].0@ != key by {
            assert(text_less(s[i].0@, s[k].0@));
            lemma_less_irreflexive(key);
        }
    }
}

/// A map from strings to strings (node UUID to slug, or path to UUID).
pub struct SlugMap {
    pairs: Vec<(String, String)>,
}

impl View for SlugMap {
    type V = Map<Seq<char>, Seq<char>>;

    closed spec fn view(&self) -> Map<Seq<char>, Seq<char>> {
        pairs_map(self.pairs@)
    }
}

impl SlugMap {
    #[verifier::type_invariant]
    spec fn sorted(self) -> bool {
        keys_increasing(self.pairs@)
    }

    /// An empty map.
    pub fn new() -> (m: SlugMap)
        ensures
            m@ == Map::<Seq<char>, Seq<char>>::empty(),
    {
        SlugMap { pairs: Vec::new() }
    }

    /// The first position whose key does not come before `key`.
    fn position(&self, key: &str) -> (p: usize)
        ensures
            p <= self.pairs@.len(),
            forall|i: int| 0 <= i < p ==> text_less(#[trigger] self.pairs@[i].0@, key@),
            forall|i: int| p <= i < self.pairs@.len() ==> !text_less(#[trigger] self.pairs@[i].0@, key@),
    {
        proof {
            use_type_invariant(&*self);
        }
        let mut lo: usize = 0;
        let mut hi: usize = self.pairs.len();
        while lo < hi
            invariant
                lo <= hi <= self.pairs@.len(),
                forall|i: int| 0 <= i < lo ==> text_less(#[trigger] self.pairs@[i].0@, key@),
                forall|i: int| hi <= i < self.pairs@.len() ==> !text_less(#[trigger] self.pairs@[i].0@, key@),
                keys_increasing(self.pairs@),
            decreases hi - lo,
        {
            proof {
                use_type_invariant(&*self);
            }
            let mid = lo + (hi - lo) / 2;
            if str_before(self.pairs[mid].0.as_str(), key) {
                proof {
                    assert forall|i: int| 0 <= i < mid + 1 implies text_less(
                        #[trigger] self.pairs@[i].0@,
                        key@,
                    ) by {
                        if i < mid {
                            lemma_less_transitive(self.pairs@[i].0@, self.pairs@[mid as int].0@, key@);
                        }
                    }
                }
                lo = mid + 1;
            } else {
                proof {
                    assert forall|i: int| mid <= i < self.pairs@.len() implies !text_less(
                        #[trigger] self.pairs@[i].0@,
                        key@,
                    ) by {
                        if i > mid && text_less(self.pairs@[i].0@, key@) {
                            lemma_less_transitive(self.pairs@[mid as int].0@, self.pairs@[i].0@, key@);
                        }
                    }
                }
                hi = mid;
            }
        }
        lo
    }

    /// Sets `key` to `value`, replacing any earlier value.
    pub fn insert(&mut self, key: String, value: String)
        ensures
            final(self)@ == old(self)@.insert(key@, value@),
    {
        proof {
            use_type_invariant(&*self);
        }
        let p = self.position(key.as_str());
        let ghost before = self.pairs@;
        let ghost k = key@;
        let ghost val = value@;
        let mut pairs: Vec<(String, String)> = Vec::new();
        std::mem::swap(&mut pairs, &mut self.pairs);
        let found = p < pairs.len() && pairs[p].0 == key;
        if found {
            pairs.set(p, (key, value));
        } else {
            proof {
                if p < before.len() {
                    lemma_less_total(before[p as int].0@, k);
                }
            }
            pairs.insert(p, (key, value));
        }
        let ghost after = pairs@;
        proof {
            assert forall|i: int, j: int| 0 <= i < j < after.len() implies text_less(
                #[trigger] after[i].0@,
                #[trigger] after[j].0@,
            ) by {
                if found {
                    if i == p {
                        assert(after[i].0@ == before[i].0@);
                    }
                    if j == p {
                        assert(after[j].0@ == before[j].0@);
                    }
                } else {
                    if j < p {
                        assert(after[i] == before[i] && after[j] == before[j]);
                    } else if i > p {
                        assert(after[i] == before[i - 1] && after[j] == before[j - 1]);
                    } else if i < p && j == p {
                        assert(after[i] == before[i]);
                    } else if i == p {
                        assert(after[j] == before[j - 1]);
                        if j > p + 1 {
                            lemma_less_transitive(k, before[p as int].0@, before[j - 1].0@);
                        }
                    } else {
                        assert(after[i] == before[i] && after[j] == before[j - 1]);
                    }
                }
            }
            assert(after[p as int].0@ == k && after[p as int].1@ == val);
            assert forall|q: Seq<char>| #[trigger] pairs_map(after).dom().contains(q) == pairs_map(
                before,
            ).insert(k, val).dom().contains(q) && (pairs_map(after).dom().contains(q) ==> pairs_map(
                after,
            )[q] == pairs_map(before).insert(k, val)[q]) by {
                lemma_increasing_lookup(after, q);
                lemma_increasing_lookup(before, q);
                lemma_keys_moved(before, after, p as int, found, q, k);
                if q != k {
                    if exists|i: int| 0 <= i < after.len() && #[trigger] after[i].0@ == q {
                        let i = choose|i: int| 0 <= i < after.len() && #[trigger] after[i].0@ == q;
                        let j = choose|j: int| 0 <= j < before.len() && before[j] == after[i];
                        assert(before[j].0@ == q);
                    }
                }
            }
            assert(pairs_map(after) =~= pairs_map(before).insert(k, val));
        }
        self.pairs = pairs;
    }

    /// The value for `key`, if any.
    pub fn get(&self, key: &str) -> (r: Option<&String>)
        ensures
            r.is_some() == self@.dom().contains(key@),
            r matches Some(v) ==> v@ == self@[key@],
    {
        proof {
            use_type_invariant(&*self);
        }
        let p = self.position(key);
        proof {
            lemma_increasing_lookup(self.pairs@, key@);
        }
        if p < self.pairs.len() && crate::text::str_is(self.pairs[p].0.as_str(), key) {
            Some(&self.pairs[p].1)
        } else {
            proof {
                assert forall|k: int| 0 <= k < self.pairs@.len() implies #[trigger] self.pairs@[k].0@
                    != key@ by {
                    if k < p {
                        lemma_less_irreflexive(key@);
                    } else if k > p && self.pairs@[k].0@ == key@ {
                        assert(text_less(self.pairs@[p as int].0@, self.pairs@[k].0@));
                        lemma_less_total(self.pairs@[p as int].0@, key@);
                        lemma_less_asymmetric(self.pairs@[p as int].0@, key@);
                    }
                }
            }
            None
        }
    }

    /// Whether `key` has a value.
    pub fn contains_key(&self, key: &str) -> (r: bool)
        ensures
            r == self@.dom().contains(key@),
    {
        self.get(key).is_some()
    }

    /// The pairs of the map, sorted by key, each key once.
    pub fn pairs(&self) -> (r: &Vec<(String, String)>)
        ensures
            pairs_map(r@) == self@,
            keys_increasing(r@),
    {
        proof {
            use_type_invariant(&*self);
        }
        &self.pairs
    }
}

/// Where each key sits after `insert` put `k` at position `p` (replacing the
/// pair there when `found`).
proof fn lemma_keys_moved(
    before: Seq<(String, String)>,
    after: Seq<(String, String)>,
    p: int,
    found: bool,
    q: Seq<char>,
    k: Seq<char>,
)
    requires
        0 <= p <= before.len(),
        found ==> p < before.len() && before[p].0@ == k && after.len() == before.len() && after[p].0@
            == k && (forall|i: int| 0 <= i < before.len() && i != p ==> #[trigger] after[i] == before[i]),
        !found ==> after.len() == before.len() + 1 && after[p].0@ == k && (forall|i: int|
            0 <= i < p ==> #[trigger] after[i] == before[i]) && (forall|i: int|
            p < i < after.len() ==> #[trigger] after[i] == before[i - 1]),
    ensures
        q != k ==> ((exists|i: int| 0 <= i < after.len() && #[trigger] after[i].0@ == q) <==> (exists|i: int|
            0 <= i < before.len() && #[trigger] before[i].0@ == q)),
        q != k ==> forall|i: int|
            0 <= i < after.len() && #[trigger] after[i].0@ == q ==> exists|j: int|
                0 <= j < before.len() && before[j] == after[i],
{
    if q != k {
        if exists|i: int| 0 <= i < after.len() && #[trigger] after[i].0@ == q {
            let i = choose|i: int| 0 <= i < after.len() && #[trigger] after[i].0@ == q;
            if found {
                assert(before[i].0@ == q);
            } else if i < p {
                assert(before[i].0@ == q);
            } else {
                assert(before[i - 1].0@ == q);
            }
        }
        if exists|i: int| 0 <= i < before.len() && #[trigger] before[i].0@ == q {
            let i = choose|i: int| 0 <= i < before.len() && #[trigger] before[i].0@ == q;
            if found {
                assert(after[i].0@ == q);
            } else if i < p {
                assert(after[i].0@ == q);
            } else {
                assert(after[i + 1].0@ == q);
            }
        }
        assert forall|i: int| 0 <= i < after.len() && #[trigger] after[i].0@ == q implies exists|j: int|
            0 <= j < before.len() && before[j] == after[i] by {
            if found {
                assert(before[i] == after[i]);
            } else if i < p {
                assert(before[i] == after[i]);
            } else {
                assert(before[i - 1] == after[i]);
            }
        }
    }
}

} // verus!
