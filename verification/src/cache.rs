//! What decides whether a node is rendered again: content hashes of the
//! node sources and of everything the slug tables are built from.

use sha2::{Digest, Sha256};
use vstd::prelude::*;

use crate::order::{lemma_sorted_unique, sorted_by_key, text_less};
use crate::slug::{distinct_ids, in_id_order, law_processing_order, processing_order, texts};
use crate::text::{push_char, str_is};
use crate::types::NodeFile;

verus! {

broadcast use vstd::string::group_string_axioms;

/// The SHA-256 digest of `data`.
pub uninterp spec fn sha256_spec(data: Seq<u8>) -> Seq<u8>;

/// Calls `sha2::Sha256::digest` (the digest of `data`, as
/// `new`/`update`/`finalize` compute it) and copies it into a `Vec`.
/// Claimed: the bytes are `sha256_spec(data)`, 32 of them (the output size of
/// SHA-256); the hash function itself is not spelled out.
#[verifier::external_body]
fn sha256(data: &[u8]) -> (r: Vec<u8>)
    ensures
        r@ == sha256_spec(data@),
        r@.len() == 32,
{
    Sha256::digest(data).to_vec()
}

#[verifier::external_type_specification]
#[verifier::external_body]
pub struct ExJsonError(serde_json::Error);

/// The compact JSON text that `serde_json::to_string` writes for an array
/// with one object per row, each object with three members: `keys.0` holding
/// the row's first text, `keys.1` its second text and `keys.2` its list of
/// texts (as strings and an array of strings); `None` where serialization
/// fails.
pub uninterp spec fn json_rows_text(
    rows: Seq<(Seq<char>, Seq<char>, Seq<Seq<char>>)>,
    keys: (Seq<char>, Seq<char>, Seq<char>),
) -> Option<Seq<char>>;

/// A row as plain texts.
pub open spec fn row_texts(row: (String, String, Vec<String>)) -> (
    Seq<char>,
    Seq<char>,
    Seq<Seq<char>>,
) {
    (row.0@, row.1@, texts(row.2@))
}

/// Builds one `serde_json::Map` object per row and calls
/// `serde_json::to_string` on the array of them. Claimed: it succeeds exactly
/// where `json_rows_text` of the rows and keys is a text, and writes that
/// text; the JSON layout (member order, escaping) is not spelled out.
#[verifier::external_body]
fn json_rows(rows: &Vec<(String, String, Vec<String>)>, keys: (&str, &str, &str)) -> (r: Result<
    String,
    serde_json::Error,
>)
    ensures
        r is Ok <==> json_rows_text(
            rows@.map_values(|x: (String, String, Vec<String>)| row_texts(x)),
            (keys.0@, keys.1@, keys.2@),
        ) is Some,
        r matches Ok(t) ==> json_rows_text(
            rows@.map_values(|x: (String, String, Vec<String>)| row_texts(x)),
            (keys.0@, keys.1@, keys.2@),
        ) == Some(t@),
{
    let mut values: Vec<serde_json::Value> = Vec::new();
    for (first, second, list) in rows {
        let mut object = serde_json::Map::new();
        object.insert(keys.0.to_string(), serde_json::Value::from(first.as_str()));
        object.insert(keys.1.to_string(), serde_json::Value::from(second.as_str()));
        object.insert(keys.2.to_string(), serde_json::Value::from(list.clone()));
        values.push(serde_json::Value::Object(object));
    }
    serde_json::to_string(&values)
}

/// The lowercase hexadecimal digit for `d` in 0..=15.
pub open spec fn hex_digit(d: int) -> char {
    if d < 10 {
        crate::decimal::digit(d)
    } else if d == 10 {
        'a'
    } else if d == 11 {
        'b'
    } else if d == 12 {
        'c'
    } else if d == 13 {
        'd'
    } else if d == 14 {
        'e'
    } else {
        'f'
    }
}

/// Lowercase hexadecimal, two digits per byte (as `{:x}` writes a digest).
pub open spec fn lower_hex(data: Seq<u8>) -> Seq<char>
    decreases data.len(),
{
    if data.len() == 0 {
        Seq::empty()
    } else {
        lower_hex(data.drop_last()) + seq![
            hex_digit((data.last() / 16) as int),
            hex_digit((data.last() % 16) as int),
        ]
    }
}

fn hex_char(d: u8) -> (r: char)
    requires
        d < 16,
    ensures
        r == hex_digit(d as int),
{
    if d < 10 {
        crate::decimal::digit_char(d as u64)
    } else if d == 10 {
        'a'
    } else if d == 11 {
        'b'
    } else if d == 12 {
        'c'
    } else if d == 13 {
        'd'
    } else if d == 14 {
        'e'
    } else {
        'f'
    }
}

/// `data` in lowercase hexadecimal, two digits per byte (as `{:x}` writes a
/// digest).
pub fn hex_lower(data: &[u8]) -> (r: String)
    ensures
        r@ == lower_hex(data@),
        r@.len() == 2 * data@.len(),
{
    let mut out = String::new();
    let n = data.len();
    let mut i: usize = 0;
    proof {
        assert(data@.take(0) == Seq::<u8>::empty());
    }
    while i < n
        invariant
            i <= n == data@.len(),
            out@ == lower_hex(data@.take(i as int)),
            out@.len() == 2 * i,
        decreases n - i,
    {
        let b = data[i];
        push_char(&mut out, hex_char(b / 16));
        push_char(&mut out, hex_char(b % 16));
        proof {
            assert(data@.take(i + 1).drop_last() == data@.take(i as int));
        }
        i = i + 1;
    }
    proof {
        assert(data@.take(n as int) == data@);
    }
    out
}

/// The SHA-256 digest of `data` in lowercase hexadecimal.
pub fn hash_bytes(data: &[u8]) -> (r: String)
    ensures
        r@ == lower_hex(sha256_spec(data@)),
        r@.len() == 64,
{
    let digest = sha256(data);
    hex_lower(digest.as_slice())
}

/// The (UUID, title, aliases) of each node, in order.
pub open spec fn slug_rows(nodes: Seq<NodeFile>) -> Seq<(Seq<char>, Seq<char>, Seq<Seq<char>>)> {
    nodes.map_values(|n: NodeFile| (n.id@, n.title@, texts(n.aliases@)))
}

/// The text whose hash stands for every input of the slug tables: the
/// compact JSON array of `{"id", "title", "aliases"}` objects of the nodes,
/// in processing order; empty where serialization fails.
pub open spec fn slug_inputs_text(nodes: Seq<NodeFile>) -> Seq<char> {
    match json_rows_text(slug_rows(in_id_order(nodes)), ("id"@, "title"@, "aliases"@)) {
        Some(t) => t,
        None => Seq::empty(),
    }
}

fn copy_texts(v: &Vec<String>) -> (r: Vec<String>)
    ensures
        r@ == v@,
{
    let mut out: Vec<String> = Vec::new();
    let n = v.len();
    let mut i: usize = 0;
    while i < n
        invariant
            i <= n == v@.len(),
            out@ == v@.take(i as int),
        decreases n - i,
    {
        out.push(v[i].clone());
        i = i + 1;
        proof {
            assert(out@ == v@.take(i as int));
        }
    }
    proof {
        assert(v@.take(n as int) == v@);
    }
    out
}

/// The text of `slug_inputs_text`.
pub fn slug_inputs(nodes: &[NodeFile]) -> (r: String)
    ensures
        r@ == slug_inputs_text(nodes@),
{
    let order = processing_order(nodes);
    let ghost sorted = in_id_order(nodes@);
    let n = order.len();
    let mut rows: Vec<(String, String, Vec<String>)> = Vec::new();
    let mut k: usize = 0;
    while k < n
        invariant
            k <= n == order@.len() == sorted.len(),
            sorted == in_id_order(nodes@),
            forall|j: int| 0 <= j < order@.len() ==> #[trigger] order@[j] < nodes@.len(),
            forall|j: int| 0 <= j < order@.len() ==> sorted[j] == nodes@[#[trigger] order@[j] as int],
            rows@.map_values(|x: (String, String, Vec<String>)| row_texts(x)) == slug_rows(
                sorted.take(k as int),
            ),
        decreases n - k,
    {
        let node = &nodes[order[k]];
        let ghost before = rows@;
        rows.push((node.id.clone(), node.title.clone(), copy_texts(&node.aliases)));
        proof {
            let m0 = before.map_values(|x: (String, String, Vec<String>)| row_texts(x));
            let m = rows@.map_values(|x: (String, String, Vec<String>)| row_texts(x));
            let t0 = slug_rows(sorted.take(k as int));
            let t = slug_rows(sorted.take(k + 1));
            assert(sorted[k as int] == *node);
            assert(m0 == t0);
            assert(before.len() == m0.len() && m0.len() == t0.len() && t0.len() == k);
            assert(rows@.len() == k + 1);
            assert(t.len() == k + 1);
            assert(m.len() == t.len());
            assert forall|i: int| 0 <= i < m.len() implies m[i] == t[i] by {
                if i < k {
                    assert(rows@[i] == before[i]);
                    assert(m[i] == m0[i]);
                    assert(sorted.take(k + 1)[i] == sorted.take(k as int)[i]);
                    assert(t[i] == t0[i]);
                } else {
                    assert(sorted.take(k + 1)[i] == *node);
                }
            }
            assert(m =~= t);
        }
        k = k + 1;
    }
    proof {
        assert(sorted.take(n as int) == sorted);
    }
    match json_rows(&rows, ("id", "title", "aliases")) {
        Ok(t) => t,
        Err(_) => String::new(),
    }
}

/// The hash of everything the slug tables are built from; when it changes,
/// every node is rendered again.
pub fn hash_slug_inputs(nodes: &[NodeFile]) -> (r: String)
    ensures
        r@ == lower_hex(sha256_spec(vstd::utf8::encode_utf8(slug_inputs_text(nodes@)))),
        r@.len() == 64,
{
    let repr = slug_inputs(nodes);
    hash_bytes(repr.as_str().as_bytes())
}

/// The rows of `nodes` in processing order hold the same rows as `nodes`,
/// and where no two nodes share a UUID they are sorted by UUID.
proof fn lemma_sorted_rows(nodes: Seq<NodeFile>)
    requires
        distinct_ids(nodes),
    ensures
        sorted_by_key(slug_rows(in_id_order(nodes)), |r: (Seq<char>, Seq<char>, Seq<Seq<char>>)| r.0),
        forall|x: (Seq<char>, Seq<char>, Seq<Seq<char>>)|
            slug_rows(in_id_order(nodes)).contains(x) <==> slug_rows(nodes).contains(x),
{
    law_processing_order(nodes);
    let s = in_id_order(nodes);
    let rs = slug_rows(s);
    let rn = slug_rows(nodes);
    let key = |r: (Seq<char>, Seq<char>, Seq<Seq<char>>)| r.0;
    assert forall|i: int, j: int| 0 <= i < j < rs.len() implies text_less(
        key(#[trigger] rs[i]),
        key(#[trigger] rs[j]),
    ) by {
        assert(rs[i].0 == s[i].id@ && rs[j].0 == s[j].id@);
    }
    assert forall|x: (Seq<char>, Seq<char>, Seq<Seq<char>>)| rs.contains(x) <==> rn.contains(x) by {
        if rs.contains(x) {
            let i = choose|i: int| 0 <= i < rs.len() && rs[i] == x;
            assert(s.contains(s[i]));
            assert(nodes.contains(s[i]));
            let j = choose|j: int| 0 <= j < nodes.len() && nodes[j] == s[i];
            assert(rn[j] == x);
        }
        if rn.contains(x) {
            let i = choose|i: int| 0 <= i < rn.len() && rn[i] == x;
            assert(nodes.contains(nodes[i]));
            assert(s.contains(nodes[i]));
            let j = choose|j: int| 0 <= j < s.len() && s[j] == nodes[i];
            assert(rs[j] == x);
        }
    }
}

/// The slug inputs, and so their hash, depend only on which (UUID, title,
/// aliases) triples the nodes have: neither on the order of the nodes nor on
/// any other field of a node. Stated where no two nodes share a UUID.
pub proof fn law_slug_inputs_order_independent(a: Seq<NodeFile>, b: Seq<NodeFile>)
    requires
        distinct_ids(a),
        distinct_ids(b),
        forall|x: (Seq<char>, Seq<char>, Seq<Seq<char>>)|
            slug_rows(a).contains(x) <==> slug_rows(b).contains(x),
    ensures
        slug_inputs_text(a) == slug_inputs_text(b),
        lower_hex(sha256_spec(vstd::utf8::encode_utf8(slug_inputs_text(a)))) == lower_hex(
            sha256_spec(vstd::utf8::encode_utf8(slug_inputs_text(b))),
        ),
{
    lemma_sorted_rows(a);
    lemma_sorted_rows(b);
    let ra = slug_rows(in_id_order(a));
    let rb = slug_rows(in_id_order(b));
    assert forall|x: (Seq<char>, Seq<char>, Seq<Seq<char>>)| ra.contains(x) <==> rb.contains(x) by {
        assert(ra.contains(x) <==> slug_rows(a).contains(x));
        assert(rb.contains(x) <==> slug_rows(b).contains(x));
    }
    lemma_sorted_unique(ra, rb, |r: (Seq<char>, Seq<char>, Seq<Seq<char>>)| r.0);
}

/// Whether a node's render can be skipped: not forced, the slug inputs
/// unchanged, the node's source hash equal to the cached one, and its HTML
/// file present.
pub fn should_skip(
    force: bool,
    slug_map_changed: bool,
    node_hash: &str,
    cached_hash: &str,
    html_exists: bool,
) -> (r: bool)
    ensures
        r == (!force && !slug_map_changed && node_hash@ == cached_hash@ && html_exists),
{
    !force && !slug_map_changed && str_is(node_hash, cached_hash) && html_exists
}

/// A lowercase hexadecimal digit.
pub open spec fn is_lower_hex_digit(c: char) -> bool {
    ('0' <= c && c <= '9') || ('a' <= c && c <= 'f')
}

/// The value of a lowercase hexadecimal digit.
pub open spec fn hex_value(c: char) -> int {
    if '0' <= c && c <= '9' {
        c as int - '0' as int
    } else {
        c as int - 'a' as int + 10
    }
}

proof fn lemma_hex_digit(d: int)
    requires
        0 <= d < 16,
    ensures
        is_lower_hex_digit(hex_digit(d)),
        hex_value(hex_digit(d)) == d,
{
}

/// Lowercase hexadecimal reads back: two digits per byte, each a
/// lowercase hexadecimal digit, the first for the high half of the byte.
pub proof fn law_lower_hex(data: Seq<u8>)
    ensures
        lower_hex(data).len() == 2 * data.len(),
        forall|i: int| 0 <= i < lower_hex(data).len() ==> is_lower_hex_digit(#[trigger] lower_hex(data)[i]),
        forall|i: int|
            0 <= i < data.len() ==> hex_value(#[trigger] lower_hex(data)[2 * i]) * 16 + hex_value(
                lower_hex(data)[2 * i + 1],
            ) == data[i],
    decreases data.len(),
{
    if data.len() > 0 {
        let t = data.drop_last();
        law_lower_hex(t);
        let b = data.last();
        lemma_hex_digit((b / 16) as int);
        lemma_hex_digit((b % 16) as int);
        assert(b == (b / 16) * 16 + b % 16) by (nonlinear_arith);
        let h = lower_hex(data);
        let ht = lower_hex(t);
        assert forall|i: int| 0 <= i < h.len() implies is_lower_hex_digit(#[trigger] h[i]) by {
            if i < ht.len() {
                assert(h[i] == ht[i]);
            }
        }
        assert forall|i: int| 0 <= i < data.len() implies hex_value(#[trigger] h[2 * i]) * 16
            + hex_value(h[2 * i + 1]) == data[i] by {
            if i < t.len() {
                assert(h[2 * i] == ht[2 * i]);
                assert(h[2 * i + 1] == ht[2 * i + 1]);
                assert(data[i] == t[i]);
            }
        }
    }
}

} // verus!
