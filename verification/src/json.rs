//! The tree that the renderer reads: a JSON value as the org-roam export
//! writes it, with the lookups the rendering rules make on it.

use vstd::prelude::*;

use crate::text::str_is;

verus! {

/// A JSON value.
///
/// A number keeps its value where it is an integer in `0..=u64::MAX`
/// (what the renderer reads of a number); any other number is `Num(None)`.
/// An object keeps its members in order; a lookup finds the first member
/// with the key asked for.
#[derive(Debug)]
pub enum Json {
    Null,
    Bool(bool),
    Num(Option<u64>),
    Str(String),
    Arr(Vec<Json>),
    Obj(Vec<(String, Json)>),
}

/// Index of the first member of `members` whose key is `key`.
pub open spec fn member_index(members: Seq<(String, Json)>, key: Seq<char>) -> Option<int>
    decreases members.len(),
{
    if members.len() == 0 {
        None
    } else if members[0].0@ == key {
        Some(0)
    } else {
        match member_index(members.drop_first(), key) {
            Some(i) => Some(i + 1),
            None => None,
        }
    }
}

/// The member `key` of an object; `None` for a missing key or a value
/// that is not an object.
pub open spec fn get_member(j: Json, key: Seq<char>) -> Option<Json> {
    match j {
        Json::Obj(members) => match member_index(members@, key) {
            Some(i) => Some(members@[i].1),
            None => None,
        },
        _ => None,
    }
}

/// The characters of a string value.
pub open spec fn as_text(j: Json) -> Option<Seq<char>> {
    match j {
        Json::Str(s) => Some(s@),
        _ => None,
    }
}

/// The member `key` of an object, where it is a string.
pub open spec fn member_text(j: Json, key: Seq<char>) -> Option<Seq<char>> {
    match get_member(j, key) {
        Some(v) => as_text(v),
        None => None,
    }
}

/// The member `key` of an object, where it is a string; else the empty string.
pub open spec fn member_text_or_empty(j: Json, key: Seq<char>) -> Seq<char> {
    match member_text(j, key) {
        Some(t) => t,
        None => Seq::empty(),
    }
}

/// The member `key` of an object, where it is an integer in `0..=u64::MAX`.
pub open spec fn member_u64(j: Json, key: Seq<char>) -> Option<u64> {
    match get_member(j, key) {
        Some(Json::Num(n)) => n,
        _ => None,
    }
}

proof fn lemma_member_index_bounds(members: Seq<(String, Json)>, key: Seq<char>)
    ensures
        member_index(members, key) matches Some(i) ==> 0 <= i < members.len() && members[i].0@
            == key,
        member_index(members, key) is None ==> forall|k: int|
            0 <= k < members.len() ==> #[trigger] members[k].0@ != key,
        member_index(members, key) matches Some(i) ==> forall|k: int|
            0 <= k < i ==> #[trigger] members[k].0@ != key,
    decreases members.len(),
{
    if members.len() > 0 {
        lemma_member_index_bounds(members.drop_first(), key);
        assert forall|k: int| 1 <= k < members.len() implies #[trigger] members[k]
            == members.drop_first()[k - 1] by {}
    }
}

/// Position of the first member of `members` whose key is `key`.
pub fn member_position(members: &Vec<(String, Json)>, key: &str) -> (r: Option<usize>)
    ensures
        match r {
            Some(i) => member_index(members@, key@) == Some(i as int) && i < members@.len(),
            None => member_index(members@, key@) is None,
        },
{
    let n = members.len();
    let mut i: usize = 0;
    while i < n
        invariant
            n == members@.len(),
            i <= n,
            forall|k: int| 0 <= k < i ==> #[trigger] members@[k].0@ != key@,
        decreases n - i,
    {
        if str_is(members[i].0.as_str(), key) {
            proof {
                lemma_member_index_bounds(members@, key@);
                assert(members@[i as int].0@ == key@);
                match member_index(members@, key@) {
                    Some(k) => {
                        if k < i {
                            assert(members@[k].0@ != key@);
                        } else if k > i {
                            assert(members@[i as int].0@ != key@);
                        }
                    },
                    None => {
                        assert(members@[i as int].0@ != key@);
                    },
                }
            }
            return Some(i);
        }
        i = i + 1;
    }
    proof {
        lemma_member_index_bounds(members@, key@);
        if let Some(k) = member_index(members@, key@) {
            assert(members@[k].0@ != key@);
        }
    }
    None
}

/// Finds member `key` of an object value.
pub fn find_member<'a>(j: &'a Json, key: &str) -> (r: Option<&'a Json>)
    ensures
        r.is_some() == get_member(*j, key@).is_some(),
        r matches Some(v) ==> get_member(*j, key@) == Some(*v),
{
    match j {
        Json::Obj(members) => match member_position(members, key) {
            Some(i) => Some(&members[i].1),
            None => None,
        },
        _ => None,
    }
}

/// Member `key` of an object value, where it is a string.
pub fn find_text<'a>(j: &'a Json, key: &str) -> (r: Option<&'a str>)
    ensures
        r.is_some() == member_text(*j, key@).is_some(),
        r matches Some(t) ==> member_text(*j, key@) == Some(t@),
{
    match find_member(j, key) {
        Some(Json::Str(s)) => Some(s.as_str()),
        _ => None,
    }
}

/// Member `key` of an object value, where it is a string; else `""`.
pub fn find_text_or_empty<'a>(j: &'a Json, key: &str) -> (r: &'a str)
    ensures
        r@ == member_text_or_empty(*j, key@),
{
    match find_text(j, key) {
        Some(t) => t,
        None => {
            proof {
                reveal_strlit("");
            }
            ""
        },
    }
}

/// Member `key` of an object value, where it is an integer in `0..=u64::MAX`.
pub fn find_u64(j: &Json, key: &str) -> (r: Option<u64>)
    ensures
        r == member_u64(*j, key@),
{
    match find_member(j, key) {
        Some(Json::Num(n)) => *n,
        _ => None,
    }
}

/// A member is looked up by its key: the first member with that key gives
/// the value, and there is none where no member has the key.
pub proof fn law_member_lookup(members: Seq<(String, Json)>, key: Seq<char>)
    ensures
        member_index(members, key) is None <==> forall|i: int|
            0 <= i < members.len() ==> #[trigger] members[i].0@ != key,
        member_index(members, key) matches Some(i) ==> 0 <= i < members.len() && members[i].0@
            == key && forall|j: int| 0 <= j < i ==> #[trigger] members[j].0@ != key,
    decreases members.len(),
{
    if members.len() > 0 && members[0].0@ != key {
        let t = members.drop_first();
        law_member_lookup(t, key);
        assert forall|i: int| 0 <= i < t.len() implies #[trigger] t[i] == members[i + 1] by {}
        if let Some(i) = member_index(t, key) {
            assert forall|j: int| 0 <= j < i + 1 implies #[trigger] members[j].0@ != key by {
                if j > 0 {
                    assert(members[j] == t[j - 1]);
                }
            }
        } else {
            assert forall|i: int| 0 <= i < members.len() implies #[trigger] members[i].0@ != key by {
                if i > 0 {
                    assert(members[i] == t[i - 1]);
                }
            }
        }
    }
}

} // verus!
