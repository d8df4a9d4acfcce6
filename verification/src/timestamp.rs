//! The last-modified time of a node: org timestamps read into ISO 8601 UTC.

use chrono::{Datelike, Timelike};
use vstd::prelude::*;

use crate::decimal::{
    all_digits, decimal_seq, digits_value, law_decimal_reads_back, law_zero_padded,
    push_decimal_padded, zero_padded,
};
use crate::json::{as_text, find_text, find_text_or_empty, member_text, member_text_or_empty, Json};
use crate::text::{
    chars_of, has_char, opt_chars, is_space, is_space_char, push_char, str_is, string_of, trim_end_index,
    trim_seq, trim_start_index, trim_start_seq,
};

verus! {

#[verifier::external_type_specification]
#[verifier::external_body]
pub struct ExChronoParseError(chrono::ParseError);

/// The date that `chrono::NaiveDate::parse_from_str` reads from `s` with
/// format `fmt`, as (year, month, day); `None` where it fails.
pub uninterp spec fn naive_date_from_str(s: Seq<char>, fmt: Seq<char>) -> Option<(i32, u32, u32)>;

/// The date and time that `chrono::NaiveDateTime::parse_from_str` reads from
/// `s` with format `fmt`, as (year, month, day, hour, minute, second,
/// nanosecond); `None` where it fails.
pub uninterp spec fn naive_datetime_from_str(s: Seq<char>, fmt: Seq<char>) -> Option<
    (i32, u32, u32, u32, u32, u32, u32),
>;

/// Calls `chrono::NaiveDate::parse_from_str(s, fmt)` and reads the date back
/// with `year`, `month` and `day`. Claimed: it succeeds exactly where
/// `naive_date_from_str(s, fmt)` is a date, and gives that date; what chrono
/// accepts is not spelled out.
#[verifier::external_body]
fn parse_naive_date(s: &str, fmt: &str) -> (r: Result<(i32, u32, u32), chrono::ParseError>)
    ensures
        r is Ok <==> naive_date_from_str(s@, fmt@) is Some,
        r matches Ok(v) ==> naive_date_from_str(s@, fmt@) == Some(v),
{
    match chrono::NaiveDate::parse_from_str(s, fmt) {
        Ok(d) => Ok((d.year(), d.month(), d.day())),
        Err(e) => Err(e),
    }
}

/// Calls `chrono::NaiveDateTime::parse_from_str(s, fmt)` and reads the value
/// back with `year`, `month`, `day`, `hour`, `minute`, `second` and
/// `nanosecond`. Claimed: it succeeds exactly where
/// `naive_datetime_from_str(s, fmt)` is a value, and gives that value; what
/// chrono accepts is not spelled out.
#[verifier::external_body]
fn parse_naive_datetime(s: &str, fmt: &str) -> (r: Result<
    (i32, u32, u32, u32, u32, u32, u32),
    chrono::ParseError,
>)
    ensures
        r is Ok <==> naive_datetime_from_str(s@, fmt@) is Some,
        r matches Ok(v) ==> naive_datetime_from_str(s@, fmt@) == Some(v),
{
    match chrono::NaiveDateTime::parse_from_str(s, fmt) {
        Ok(t) => Ok(
            (t.year(), t.month(), t.day(), t.hour(), t.minute(), t.second(), t.nanosecond()),
        ),
        Err(e) => Err(e),
    }
}

/// A year as `%Y` writes it: four digits at least, with a sign outside 0..=9999.
pub open spec fn year_text(y: int) -> Seq<char> {
    if 0 <= y <= 9999 {
        zero_padded(decimal_seq(y as nat), 4)
    } else if y < 0 {
        seq!['-'] + zero_padded(decimal_seq((-y) as nat), 4)
    } else {
        seq!['+'] + zero_padded(decimal_seq(y as nat), 4)
    }
}

/// A number as `%m`, `%d`, `%H`, `%M` or `%S` write it: two digits at least.
pub open spec fn two_digits(n: int) -> Seq<char> {
    zero_padded(decimal_seq(n as nat), 2)
}

/// `YYYY-MM-DD`.
pub open spec fn date_iso(y: i32, m: u32, d: u32) -> Seq<char> {
    year_text(y as int) + seq!['-'] + two_digits(m as int) + seq!['-'] + two_digits(d as int)
}

/// `YYYY-MM-DDT00:00:00Z`, the ISO 8601 UTC text of a date.
pub open spec fn date_iso_utc(y: i32, m: u32, d: u32) -> Seq<char> {
    date_iso(y, m, d) + "T00:00:00Z"@
}

/// `YYYY-MM-DDTHH:MM:SSZ`, the ISO 8601 UTC text of a date and time (a leap
/// second, which chrono keeps as a nanosecond count of a second or more,
/// shows as second 60).
pub open spec fn datetime_iso_utc(
    y: i32,
    mo: u32,
    d: u32,
    h: u32,
    mi: u32,
    sec: u32,
    nano: u32,
) -> Seq<char> {
    date_iso(y, mo, d) + seq!['T'] + two_digits(h as int) + seq![':'] + two_digits(mi as int)
        + seq![':'] + two_digits(sec + nano / 1_000_000_000) + seq!['Z']
}

/// The ISO 8601 UTC text of a date read from `s` (`YYYY-MM-DDT00:00:00Z`).
pub open spec fn date_text(s: Seq<char>) -> Option<Seq<char>> {
    match naive_date_from_str(s, "%Y-%m-%d"@) {
        Some((y, m, d)) => Some(date_iso_utc(y, m, d)),
        None => None,
    }
}

/// The ISO 8601 UTC text of a date and time read from `s`
/// (`YYYY-MM-DDTHH:MM:SSZ`).
pub open spec fn datetime_text(s: Seq<char>) -> Option<Seq<char>> {
    match naive_datetime_from_str(s, "%Y-%m-%d %H:%M"@) {
        Some((y, mo, d, h, mi, sec, nano)) => Some(datetime_iso_utc(y, mo, d, h, mi, sec, nano)),
        None => None,
    }
}

/// `s` without the characters `c` at its start.
pub open spec fn strip_leading(s: Seq<char>, c: char) -> Seq<char>
    decreases s.len(),
{
    if s.len() > 0 && s[0] == c {
        strip_leading(s.drop_first(), c)
    } else {
        s
    }
}

/// `s` without the characters `c` at its end.
pub open spec fn strip_trailing(s: Seq<char>, c: char) -> Seq<char>
    decreases s.len(),
{
    if s.len() > 0 && s.last() == c {
        strip_trailing(s.drop_last(), c)
    } else {
        s
    }
}

/// Position of the first `c` in `s`.
pub open spec fn index_of(s: Seq<char>, c: char) -> Option<int>
    decreases s.len(),
{
    if s.len() == 0 {
        None
    } else if s[0] == c {
        Some(0)
    } else {
        match index_of(s.drop_first(), c) {
            Some(i) => Some(i + 1),
            None => None,
        }
    }
}

/// Length of the run of non-white-space characters that starts `s`.
pub open spec fn word_len(s: Seq<char>) -> nat
    decreases s.len(),
{
    if s.len() > 0 && !is_space_char(s[0]) {
        1 + word_len(s.drop_first())
    } else {
        0
    }
}

proof fn lemma_word_len(s: Seq<char>, k: int)
    requires
        0 <= k <= s.len(),
        forall|x: int| 0 <= x < k ==> !is_space_char(#[trigger] s[x]),
        k == s.len() || is_space_char(s[k]),
    ensures
        word_len(s) == k,
    decreases k,
{
    if k > 0 {
        let t = s.drop_first();
        assert forall|x: int| 0 <= x < k - 1 implies !is_space_char(#[trigger] t[x]) by {
            assert(t[x] == s[x + 1]);
        }
        if k < s.len() {
            assert(t[k - 1] == s[k]);
        }
        lemma_word_len(t, k - 1);
    }
}

pub proof fn lemma_word_len_bound(s: Seq<char>)
    ensures
        word_len(s) <= s.len(),
        s.len() > 0 && !is_space_char(s[0]) ==> word_len(s) >= 1,
    decreases s.len(),
{
    if s.len() > 0 && !is_space_char(s[0]) {
        lemma_word_len_bound(s.drop_first());
    }
}

pub proof fn lemma_trim_start_shape(s: Seq<char>)
    ensures
        trim_start_seq(s).len() <= s.len(),
        trim_start_seq(s).len() > 0 ==> !is_space_char(trim_start_seq(s)[0]),
    decreases s.len(),
{
    if s.len() > 0 && is_space_char(s[0]) {
        lemma_trim_start_shape(s.drop_first());
    }
}

/// The first white-space-separated word of `s` that holds a `:`.
pub open spec fn first_colon_word(s: Seq<char>) -> Option<Seq<char>>
    decreases s.len(),
{
    let t = trim_start_seq(s);
    if t.len() == 0 {
        None
    } else {
        let k = word_len(t);
        if t.take(k as int).contains(':') {
            Some(t.take(k as int))
        } else {
            proof {
                lemma_trim_start_shape(s);
                lemma_word_len_bound(t);
            }
            first_colon_word(t.skip(k as int))
        }
    }
}

/// The ISO 8601 UTC text of an org timestamp, as the org-roam export writes
/// `LAST_MODIFIED`: `<2025-12-02 01:25>`, `<2026-01-16>`, with or without a
/// day name. Angle brackets and surrounding white space are dropped; the text
/// before the first space is the date; the first word after it that holds a
/// `:` is the time.
pub open spec fn org_timestamp_iso(s: Seq<char>) -> Option<Seq<char>> {
    let (text, timed) = timestamp_query_spec(s);
    if timed {
        datetime_text(text)
    } else {
        date_text(text)
    }
}

/// What an org timestamp gives chrono to read: the text, and whether it
/// holds a time (read as `%Y-%m-%d %H:%M`) or a date alone (read as
/// `%Y-%m-%d`).
pub open spec fn timestamp_query_spec(s: Seq<char>) -> (Seq<char>, bool) {
    body_query(trim_seq(strip_trailing(strip_leading(s, '<'), '>')))
}

/// What a timestamp's body (the text inside the angle brackets, trimmed)
/// gives chrono to read.
pub open spec fn body_query(inner: Seq<char>) -> (Seq<char>, bool) {
    match index_of(inner, ' ') {
        None => (inner, false),
        Some(i) => {
            let date_part = inner.take(i);
            match first_colon_word(trim_seq(inner.skip(i + 1))) {
                Some(time) => (date_part + seq![' '] + time, true),
                None => (date_part, false),
            }
        },
    }
}

/// The time of the first `LAST_MODIFIED` node property in a subtree, read as
/// an org timestamp. Such a property answers for its own subtree (its
/// children are not searched), also where its value does not read; the
/// search then goes on with the subtrees that follow.
pub open spec fn last_modified_in(node: Json) -> Option<Seq<char>>
    decreases node,
{
    match node {
        Json::Arr(v) => {
            if v@.len() >= 2 {
                let ty = match as_text(v@[0]) {
                    Some(t) => t,
                    None => Seq::empty(),
                };
                if ty == "node-property"@ && member_text_or_empty(v@[1], "key"@)
                    == "LAST_MODIFIED"@ {
                    match member_text(v@[1], "value"@) {
                        Some(val) => org_timestamp_iso(val),
                        None => None,
                    }
                } else {
                    last_modified_in_seq(v@.subrange(2, v@.len() as int))
                }
            } else {
                None
            }
        },
        _ => None,
    }
}

/// The first time that `last_modified_in` finds in a sequence of subtrees.
pub open spec fn last_modified_in_seq(s: Seq<Json>) -> Option<Seq<char>>
    decreases s,
{
    if s.len() == 0 {
        None
    } else {
        match last_modified_in(s[0]) {
            Some(t) => Some(t),
            None => last_modified_in_seq(s.drop_first()),
        }
    }
}

/// The time shown when none can be found: the Unix epoch.
pub open spec fn epoch_text() -> Seq<char> {
    "1970-01-01T00:00:00Z"@
}

/// The last-modified time of a node's tree: the org-data `LAST_MODIFIED`
/// property where it reads as a timestamp; else the first `LAST_MODIFIED`
/// node property below the root; else the epoch.
pub open spec fn last_modified_spec(ast: Json) -> Seq<char> {
    let direct = match ast {
        Json::Arr(v) => {
            if v@.len() > 1 {
                match member_text(v@[1], "LAST_MODIFIED"@) {
                    Some(t) => org_timestamp_iso(t),
                    None => None,
                }
            } else {
                None
            }
        },
        _ => None,
    };
    match direct {
        Some(t) => t,
        None => match ast {
            Json::Arr(v) => {
                let kids = if v@.len() >= 2 {
                    v@.subrange(2, v@.len() as int)
                } else {
                    Seq::empty()
                };
                match last_modified_in_seq(kids) {
                    Some(t) => t,
                    None => epoch_text(),
                }
            },
            _ => epoch_text(),
        },
    }
}


fn push_year(out: &mut String, y: i32)
    ensures
        final(out)@ == old(out)@ + year_text(y as int),
{
    if 0 <= y && y <= 9999 {
        push_decimal_padded(out, y as u64, 4);
    } else if y < 0 {
        push_char(out, '-');
        let a: i64 = -(y as i64);
        push_decimal_padded(out, a as u64, 4);
    } else {
        push_char(out, '+');
        push_decimal_padded(out, y as u64, 4);
    }
}

fn push_date(out: &mut String, y: i32, m: u32, d: u32)
    ensures
        final(out)@ == old(out)@ + date_iso(y, m, d),
{
    push_year(out, y);
    push_char(out, '-');
    push_decimal_padded(out, m as u64, 2);
    push_char(out, '-');
    push_decimal_padded(out, d as u64, 2);
}

/// The ISO 8601 UTC text of the date that chrono read.
pub fn date_iso_text(y: i32, m: u32, d: u32) -> (r: String)
    ensures
        r@ == date_iso_utc(y, m, d),
{
    let mut out = String::new();
    push_date(&mut out, y, m, d);
    out.append("T00:00:00Z");
    out
}

/// The ISO 8601 UTC text of the date and time that chrono read.
pub fn datetime_iso_text(y: i32, mo: u32, d: u32, h: u32, mi: u32, sec: u32, nano: u32) -> (r:
    String)
    ensures
        r@ == datetime_iso_utc(y, mo, d, h, mi, sec, nano),
{
    let mut out = String::new();
    push_date(&mut out, y, mo, d);
    push_char(&mut out, 'T');
    push_decimal_padded(&mut out, h as u64, 2);
    push_char(&mut out, ':');
    push_decimal_padded(&mut out, mi as u64, 2);
    push_char(&mut out, ':');
    let secs: u64 = sec as u64 + (nano / 1_000_000_000) as u64;
    push_decimal_padded(&mut out, secs, 2);
    push_char(&mut out, 'Z');
    out
}

fn date_text_of(s: &str) -> (r: Option<String>)
    ensures
        opt_chars(r) == date_text(s@),
{
    match parse_naive_date(s, "%Y-%m-%d") {
        Ok((y, m, d)) => Some(date_iso_text(y, m, d)),
        Err(_) => None,
    }
}

fn datetime_text_of(s: &str) -> (r: Option<String>)
    ensures
        opt_chars(r) == datetime_text(s@),
{
    match parse_naive_datetime(s, "%Y-%m-%d %H:%M") {
        Ok((y, mo, d, h, mi, sec, nano)) => Some(datetime_iso_text(y, mo, d, h, mi, sec, nano)),
        Err(_) => None,
    }
}

fn index_of_in(v: &Vec<char>, lo: usize, hi: usize, c: char) -> (r: Option<usize>)
    requires
        lo <= hi <= v@.len(),
    ensures
        match r {
            Some(p) => lo <= p < hi && index_of(v@.subrange(lo as int, hi as int), c) == Some(
                p - lo,
            ),
            None => index_of(v@.subrange(lo as int, hi as int), c) is None,
        },
    decreases hi - lo,
{
    if lo == hi {
        None
    } else if v[lo] == c {
        Some(lo)
    } else {
        let r = index_of_in(v, lo + 1, hi, c);
        proof {
            assert(v@.subrange(lo as int, hi as int).drop_first() == v@.subrange(
                lo + 1,
                hi as int,
            ));
        }
        r
    }
}

/// Start and end of the first word of `v[a..b]` that holds a `:`.
fn first_colon_word_in(v: &Vec<char>, a: usize, b: usize) -> (r: Option<(usize, usize)>)
    requires
        a <= b <= v@.len(),
    ensures
        match r {
            Some((i, j)) => a <= i <= j <= b && first_colon_word(v@.subrange(a as int, b as int))
                == Some(v@.subrange(i as int, j as int)),
            None => first_colon_word(v@.subrange(a as int, b as int)) is None,
        },
{
    let mut i = a;
    while i < b
        invariant
            a <= i <= b <= v@.len(),
            first_colon_word(v@.subrange(a as int, b as int)) == first_colon_word(
                v@.subrange(i as int, b as int),
            ),
        decreases b - i,
    {
        let s = trim_start_index(v, i, b);
        if s == b {
            proof {
                assert(v@.subrange(b as int, b as int).len() == 0);
            }
            return None;
        }
        let mut j = s;
        while j < b && !is_space(v[j])
            invariant
                s <= j <= b <= v@.len(),
                forall|x: int| s <= x < j ==> !is_space_char(#[trigger] v@[x]),
            decreases b - j,
        {
            j = j + 1;
        }
        proof {
            let t = v@.subrange(s as int, b as int);
            assert forall|x: int| 0 <= x < j - s implies !is_space_char(#[trigger] t[x]) by {
                assert(t[x] == v@[s + x]);
            }
            if j < b {
                assert(t[j - s] == v@[j as int]);
            }
            lemma_word_len(t, j - s);
            assert(t.take(j - s) == v@.subrange(s as int, j as int));
            assert(t.skip(j - s) == v@.subrange(j as int, b as int));
        }
        if has_char(v, s, j, ':') {
            return Some((s, j));
        }
        i = j;
    }
    proof {
        assert(v@.subrange(i as int, b as int).len() == 0);
        assert(trim_start_seq(v@.subrange(i as int, b as int)).len() == 0);
    }
    None
}

/// Where the text inside the angle brackets of `v` starts and ends.
fn bracket_body(v: &Vec<char>) -> (r: (usize, usize))
    ensures
        r.0 <= r.1 <= v@.len(),
        v@.subrange(r.0 as int, r.1 as int) == strip_trailing(strip_leading(v@, '<'), '>'),
{
    let n = v.len();
    let mut lo: usize = 0;
    proof {
        assert(v@.subrange(0, n as int) == v@);
    }
    while lo < n && v[lo] == '<'
        invariant
            lo <= n == v@.len(),
            strip_leading(v@, '<') == strip_leading(v@.subrange(lo as int, n as int), '<'),
        decreases n - lo,
    {
        proof {
            assert(v@.subrange(lo as int, n as int).drop_first() == v@.subrange(
                lo + 1,
                n as int,
            ));
        }
        lo = lo + 1;
    }
    let mut hi: usize = n;
    while hi > lo && v[hi - 1] == '>'
        invariant
            lo <= hi <= n == v@.len(),
            strip_trailing(v@.subrange(lo as int, n as int), '>') == strip_trailing(
                v@.subrange(lo as int, hi as int),
                '>',
            ),
        decreases hi,
    {
        proof {
            assert(v@.subrange(lo as int, hi as int).drop_last() == v@.subrange(
                lo as int,
                hi - 1,
            ));
        }
        hi = hi - 1;
    }
    proof {
        if !(lo < n && v@[lo as int] == '<') {
            assert(strip_leading(v@.subrange(lo as int, n as int), '<') == v@.subrange(
                lo as int,
                n as int,
            ));
        }
        if !(hi > lo && v@[hi - 1] == '>') {
            assert(strip_trailing(v@.subrange(lo as int, hi as int), '>') == v@.subrange(
                lo as int,
                hi as int,
            ));
        }
    }
    (lo, hi)
}

fn timestamp_body(v: &Vec<char>, a: usize, b: usize) -> (r: (String, bool))
    requires
        a <= b <= v@.len(),
    ensures
        (r.0@, r.1) == body_query(v@.subrange(a as int, b as int)),
{
    let ghost inner = v@.subrange(a as int, b as int);
    match index_of_in(v, a, b, ' ') {
        None => (string_of(v, a, b), false),
        Some(p) => {
            let ra = trim_start_index(v, p + 1, b);
            let rb = trim_end_index(v, ra, b);
            proof {
                assert(inner.take(p - a) == v@.subrange(a as int, p as int));
                assert(inner.skip(p - a + 1) == v@.subrange(p + 1, b as int));
                assert(trim_seq(inner.skip(p - a + 1)) == v@.subrange(ra as int, rb as int));
            }
            match first_colon_word_in(v, ra, rb) {
                Some((ti, tj)) => {
                    let mut dt = string_of(v, a, p);
                    push_char(&mut dt, ' ');
                    let t = string_of(v, ti, tj);
                    dt.append(t.as_str());
                    proof {
                        assert(dt@ == inner.take(p - a) + seq![' '] + v@.subrange(
                            ti as int,
                            tj as int,
                        ));
                    }
                    (dt, true)
                },
                None => (string_of(v, a, p), false),
            }
        },
    }
}

/// What an org timestamp gives chrono to read (see `timestamp_query_spec`):
/// the text, and whether it is read as a date and time or as a date alone.
pub fn timestamp_query(s: &str) -> (r: (String, bool))
    ensures
        (r.0@, r.1) == timestamp_query_spec(s@),
{
    let v = chars_of(s);
    let (lo, hi) = bracket_body(&v);
    let a = trim_start_index(&v, lo, hi);
    let b = trim_end_index(&v, a, hi);
    timestamp_body(&v, a, b)
}

/// Parse an org-mode timestamp string to ISO 8601 UTC.
/// Handles: "<2025-12-02 01:25>" and "<2026-01-16>".
pub fn parse_org_timestamp(s: &str) -> (r: Option<String>)
    ensures
        opt_chars(r) == org_timestamp_iso(s@),
{
    let (text, timed) = timestamp_query(s);
    if timed {
        datetime_text_of(text.as_str())
    } else {
        date_text_of(text.as_str())
    }
}

fn walk_for_last_modified(node: &Json) -> (r: Option<String>)
    ensures
        opt_chars(r) == last_modified_in(*node),
    decreases node, 1nat,
{
    match node {
        Json::Arr(v) => {
            if v.len() >= 2 {
                let is_property = match &v[0] {
                    Json::Str(t) => str_is(t.as_str(), "node-property"),
                    _ => false,
                };
                proof {
                    reveal_strlit("");
                    reveal_strlit("node-property");
                }
                if is_property && str_is(find_text_or_empty(&v[1], "key"), "LAST_MODIFIED") {
                    match find_text(&v[1], "value") {
                        Some(value) => parse_org_timestamp(value),
                        None => None,
                    }
                } else {
                    let r = walk_children(v, 2);
                    proof {
                        let ty = match as_text(v@[0]) {
                            Some(t) => t,
                            None => Seq::empty(),
                        };
                        reveal_strlit("node-property");
                        assert("node-property"@.len() == 13);
                        match v@[0] {
                            Json::Str(t) => {
                                assert(ty == t@);
                            },
                            _ => {
                                assert(ty.len() == 0);
                            },
                        }
                        assert(is_property == (ty == "node-property"@));
                        assert(is_property ==> member_text_or_empty(v@[1], "key"@)
                            != "LAST_MODIFIED"@);
                        assert(last_modified_in(*node) == last_modified_in_seq(
                            v@.subrange(2, v@.len() as int),
                        ));
                    }
                    r
                }
            } else {
                None
            }
        },
        _ => None,
    }
}

fn walk_children(v: &Vec<Json>, from: usize) -> (r: Option<String>)
    requires
        from <= v@.len(),
    ensures
        opt_chars(r) == last_modified_in_seq(v@.subrange(from as int, v@.len() as int)),
    decreases v, 0nat,
{
    let n = v.len();
    let mut i = from;
    while i < n
        invariant
            from <= i <= n == v@.len(),
            last_modified_in_seq(v@.subrange(from as int, n as int)) == last_modified_in_seq(
                v@.subrange(i as int, n as int),
            ),
        decreases n - i,
    {
        proof {
            let s = v@.subrange(i as int, n as int);
            assert(s[0] == v@[i as int]);
            assert(s.drop_first() == v@.subrange(i + 1, n as int));
            assert(decreases_to!(v => v@[i as int]));
        }
        let found = walk_for_last_modified(&v[i]);
        if found.is_some() {
            return found;
        }
        i = i + 1;
    }
    None
}

/// Extract LAST_MODIFIED from the org-data AST node.
/// Primary: reads ast[1]["LAST_MODIFIED"] directly from org-data props.
/// Two org timestamp formats: "<2025-12-02 01:25>" and "<2026-01-16>".
/// Returns ISO 8601 UTC string, or epoch on failure.
pub fn extract_last_modified(ast: &Json) -> (r: String)
    ensures
        r@ == last_modified_spec(*ast),
{
    if let Json::Arr(v) = ast {
        if v.len() > 1 {
            if let Some(lm) = find_text(&v[1], "LAST_MODIFIED") {
                if let Some(parsed) = parse_org_timestamp(lm) {
                    return parsed;
                }
            }
        }
        if v.len() >= 2 {
            if let Some(found) = walk_children(v, 2) {
                return found;
            }
        } else {
            proof {
                assert(last_modified_in_seq(Seq::<Json>::empty()) is None);
            }
        }
    }
    String::from_str("1970-01-01T00:00:00Z")
}


/// The time of a value that reads as an org timestamp.
pub open spec fn is_timestamp_reading(t: Seq<char>) -> bool {
    exists|s: Seq<char>| org_timestamp_iso(s) == Some(t)
}

proof fn lemma_found_is_reading(node: Json)
    ensures
        last_modified_in(node) matches Some(t) ==> is_timestamp_reading(t),
    decreases node,
{
    if let Json::Arr(v) = node {
        if v@.len() >= 2 {
            let ty = match as_text(v@[0]) {
                Some(t) => t,
                None => Seq::empty(),
            };
            if ty == "node-property"@ && member_text_or_empty(v@[1], "key"@) == "LAST_MODIFIED"@ {
                if let Some(val) = member_text(v@[1], "value"@) {
                    if let Some(t) = org_timestamp_iso(val) {
                        assert(org_timestamp_iso(val) == Some(t));
                    }
                }
            } else {
                lemma_found_in_seq_is_reading(v@.subrange(2, v@.len() as int));
            }
        }
    }
}

proof fn lemma_found_in_seq_is_reading(s: Seq<Json>)
    ensures
        last_modified_in_seq(s) matches Some(t) ==> is_timestamp_reading(t),
    decreases s,
{
    if s.len() > 0 {
        lemma_found_is_reading(s[0]);
        lemma_found_in_seq_is_reading(s.drop_first());
    }
}

/// The last-modified time is the epoch or the reading of some timestamp
/// text: it is never made up from anything else.
pub proof fn law_last_modified_source(ast: Json)
    ensures
        last_modified_spec(ast) == epoch_text() || is_timestamp_reading(last_modified_spec(ast)),
{
    if let Json::Arr(v) = ast {
        if v@.len() > 1 {
            if let Some(t) = member_text(v@[1], "LAST_MODIFIED"@) {
                if let Some(r) = org_timestamp_iso(t) {
                    assert(org_timestamp_iso(t) == Some(r));
                }
            }
        }
        if v@.len() >= 2 {
            lemma_found_in_seq_is_reading(v@.subrange(2, v@.len() as int));
        }
    }
}

/// The search through a sequence of subtrees answers with the first subtree
/// that has an answer: it is `None` exactly when no subtree has one, and
/// otherwise what subtree `i` finds, where every subtree before `i` finds
/// nothing.
proof fn lemma_first_found(s: Seq<Json>)
    ensures
        last_modified_in_seq(s) is None <==> forall|j: int|
            0 <= j < s.len() ==> #[trigger] last_modified_in(s[j]) is None,
        last_modified_in_seq(s) is Some ==> exists|i: int|
            0 <= i < s.len() && last_modified_in_seq(s) == #[trigger] last_modified_in(s[i])
                && forall|j: int| 0 <= j < i ==> #[trigger] last_modified_in(s[j]) is None,
    decreases s.len(),
{
    if s.len() > 0 {
        let t = s.drop_first();
        lemma_first_found(t);
        assert forall|j: int| 0 <= j < t.len() implies #[trigger] t[j] == s[j + 1] by {}
        if last_modified_in(s[0]) is None {
            if last_modified_in_seq(t) is Some {
                let i = choose|i: int|
                    0 <= i < t.len() && last_modified_in_seq(t) == #[trigger] last_modified_in(t[i])
                        && forall|j: int| 0 <= j < i ==> #[trigger] last_modified_in(t[j]) is None;
                assert(last_modified_in_seq(s) == last_modified_in(s[i + 1]));
                assert forall|j: int| 0 <= j < i + 1 implies #[trigger] last_modified_in(s[j]) is None by {
                    if j > 0 {
                        assert(s[j] == t[j - 1]);
                    }
                }
            } else {
                assert forall|j: int| 0 <= j < s.len() implies #[trigger] last_modified_in(s[j]) is None by {
                    if j > 0 {
                        assert(s[j] == t[j - 1]);
                    }
                }
            }
        } else {
            assert(last_modified_in_seq(s) == last_modified_in(s[0]));
        }
    }
}

/// The search for a `LAST_MODIFIED` node property descends into every
/// element, whatever its type (headlines, sections and drawers alike): an
/// element that is not itself a `LAST_MODIFIED` node property answers with
/// its first child that has an answer, and with `None` only where no child
/// has one.
pub proof fn law_last_modified_descends(v: Vec<Json>)
    requires
        v@.len() >= 2,
        !(as_text(v@[0]) == Some("node-property"@) && member_text_or_empty(v@[1], "key"@)
            == "LAST_MODIFIED"@),
    ensures
        ({
            let kids = v@.subrange(2, v@.len() as int);
            &&& last_modified_in(Json::Arr(v)) is None <==> forall|j: int|
                0 <= j < kids.len() ==> #[trigger] last_modified_in(kids[j]) is None
            &&& last_modified_in(Json::Arr(v)) is Some ==> exists|i: int|
                0 <= i < kids.len() && last_modified_in(Json::Arr(v)) == #[trigger] last_modified_in(
                    kids[i],
                ) && forall|j: int| 0 <= j < i ==> #[trigger] last_modified_in(kids[j]) is None
        }),
{
    reveal_strlit("node-property");
    assert("node-property"@.len() == 13);
    let kids = v@.subrange(2, v@.len() as int);
    assert(last_modified_in(Json::Arr(v)) == last_modified_in_seq(kids));
    lemma_first_found(kids);
}

/// Which time a node's tree shows: the root's own `LAST_MODIFIED` property
/// where it reads as a timestamp; else what the first child of the root
/// with an answer finds (each searched as `law_last_modified_descends`
/// says); else the Unix epoch, `1970-01-01T00:00:00Z`.
pub proof fn law_last_modified_choice(v: Vec<Json>)
    requires
        v@.len() >= 2,
    ensures
        ({
            let direct = match member_text(v@[1], "LAST_MODIFIED"@) {
                Some(t) => org_timestamp_iso(t),
                None => None,
            };
            let kids = v@.subrange(2, v@.len() as int);
            let r = last_modified_spec(Json::Arr(v));
            &&& direct matches Some(t) ==> r == t
            &&& direct is None && (forall|j: int|
                0 <= j < kids.len() ==> #[trigger] last_modified_in(kids[j]) is None) ==> r
                == "1970-01-01T00:00:00Z"@
            &&& direct is None && !(forall|j: int|
                0 <= j < kids.len() ==> #[trigger] last_modified_in(kids[j]) is None) ==> exists|i: int|
                0 <= i < kids.len() && Some(r) == #[trigger] last_modified_in(kids[i]) && forall|j: int|
                    0 <= j < i ==> #[trigger] last_modified_in(kids[j]) is None
        }),
{
    let kids = v@.subrange(2, v@.len() as int);
    lemma_first_found(kids);
}

/// A tree that is not an element shows the Unix epoch.
pub proof fn law_last_modified_not_element(ast: Json)
    requires
        !(ast matches Json::Arr(v) && v@.len() >= 2),
    ensures
        last_modified_spec(ast) == "1970-01-01T00:00:00Z"@,
{
    if let Json::Arr(v) = ast {
        if v@.len() > 1 {
        }
        assert(v@.len() < 2);
        assert(Seq::<Json>::empty().len() == 0);
    }
}

proof fn lemma_decimal_short(n: nat)
    ensures
        n < 10 ==> decimal_seq(n).len() == 1,
        n < 100 ==> decimal_seq(n).len() <= 2,
        n < 1000 ==> decimal_seq(n).len() <= 3,
        n < 10000 ==> decimal_seq(n).len() <= 4,
    decreases n,
{
    if n >= 10 {
        lemma_decimal_short(n / 10);
    }
}

proof fn lemma_two_digits(n: int)
    requires
        0 <= n < 100,
    ensures
        two_digits(n).len() == 2,
        all_digits(two_digits(n)),
        digits_value(two_digits(n)) == n,
{
    lemma_decimal_short(n as nat);
    law_decimal_reads_back(n as nat);
    law_zero_padded(decimal_seq(n as nat), 2);
}

/// How a year is written: from 0 to 9999 as four digits that denote it;
/// before year 0 as `-` and at least four digits that denote its distance
/// from 0; after 9999 as `+` and the digits that denote it.
pub proof fn law_year_text(y: int)
    ensures
        0 <= y <= 9999 ==> year_text(y).len() == 4 && all_digits(year_text(y)) && digits_value(
            year_text(y),
        ) == y,
        y < 0 ==> year_text(y)[0] == '-' && year_text(y).len() >= 5 && all_digits(
            year_text(y).skip(1),
        ) && digits_value(year_text(y).skip(1)) == -y,
        y > 9999 ==> year_text(y)[0] == '+' && year_text(y).len() >= 5 && all_digits(
            year_text(y).skip(1),
        ) && digits_value(year_text(y).skip(1)) == y,
{
    let a: nat = if y < 0 {
        (-y) as nat
    } else {
        y as nat
    };
    lemma_decimal_short(a);
    law_decimal_reads_back(a);
    law_zero_padded(decimal_seq(a), 4);
    let p = zero_padded(decimal_seq(a), 4);
    if y < 0 {
        assert((seq!['-'] + p).skip(1) =~= p);
    } else if y > 9999 {
        assert((seq!['+'] + p).skip(1) =~= p);
    }
}

/// The text of a date that chrono read (year 0 to 9999, month and day
/// below 100): four digits denoting the year, `-`, two digits denoting the
/// month, `-`, two digits denoting the day, then `T00:00:00Z`.
pub proof fn law_date_text(y: i32, m: u32, d: u32)
    requires
        0 <= y <= 9999,
        m < 100,
        d < 100,
    ensures
        ({
            let t = date_iso_utc(y, m, d);
            &&& t.len() == 20
            &&& all_digits(t.subrange(0, 4)) && digits_value(t.subrange(0, 4)) == y
            &&& t[4] == '-'
            &&& all_digits(t.subrange(5, 7)) && digits_value(t.subrange(5, 7)) == m
            &&& t[7] == '-'
            &&& all_digits(t.subrange(8, 10)) && digits_value(t.subrange(8, 10)) == d
            &&& t.subrange(10, 20) == "T00:00:00Z"@
        }),
{
    reveal_strlit("T00:00:00Z");
    law_year_text(y as int);
    lemma_two_digits(m as int);
    lemma_two_digits(d as int);
    let t = date_iso_utc(y, m, d);
    assert(t.subrange(0, 4) =~= year_text(y as int));
    assert(t.subrange(5, 7) =~= two_digits(m as int));
    assert(t.subrange(8, 10) =~= two_digits(d as int));
    assert(t.subrange(10, 20) =~= "T00:00:00Z"@);
}

/// The text of a date and time that chrono read (year 0 to 9999, the other
/// fields below 100): the date as `law_date_text` says, `T`, two digits each
/// for hour, minute and second (a leap second, a nanosecond count of a
/// second or more, adds one to the second), separated by `:`, then `Z`.
pub proof fn law_datetime_text(y: i32, mo: u32, d: u32, h: u32, mi: u32, sec: u32, nano: u32)
    requires
        0 <= y <= 9999,
        mo < 100,
        d < 100,
        h < 100,
        mi < 100,
        sec + nano / 1_000_000_000 < 100,
    ensures
        ({
            let t = datetime_iso_utc(y, mo, d, h, mi, sec, nano);
            &&& t.len() == 20
            &&& t.subrange(0, 10) == date_iso_utc(y, mo, d).subrange(0, 10)
            &&& t[10] == 'T'
            &&& all_digits(t.subrange(11, 13)) && digits_value(t.subrange(11, 13)) == h
            &&& t[13] == ':'
            &&& all_digits(t.subrange(14, 16)) && digits_value(t.subrange(14, 16)) == mi
            &&& t[16] == ':'
            &&& all_digits(t.subrange(17, 19)) && digits_value(t.subrange(17, 19)) == sec + nano
                / 1_000_000_000
            &&& t[19] == 'Z'
        }),
{
    reveal_strlit("T00:00:00Z");
    law_year_text(y as int);
    lemma_two_digits(mo as int);
    lemma_two_digits(d as int);
    lemma_two_digits(h as int);
    lemma_two_digits(mi as int);
    lemma_two_digits(sec + nano / 1_000_000_000);
    let t = datetime_iso_utc(y, mo, d, h, mi, sec, nano);
    let u = date_iso_utc(y, mo, d);
    assert(t.subrange(0, 10) =~= u.subrange(0, 10));
    assert(t.subrange(11, 13) =~= two_digits(h as int));
    assert(t.subrange(14, 16) =~= two_digits(mi as int));
    assert(t.subrange(17, 19) =~= two_digits(sec + nano / 1_000_000_000));
}

/// `w` is the white-space-separated word of `s` that holds the first `:`
/// of `s`.
pub open spec fn word_at_first_colon(s: Seq<char>, w: Seq<char>) -> bool {
    exists|a: int, b: int, c: int|
        #![trigger s.subrange(a, b), s[c]]
        0 <= a <= c < b <= s.len() && s[c] == ':' && (forall|x: int| 0 <= x < c ==> #[trigger] s[x] != ':')
            && (a == 0 || is_space_char(s[a - 1])) && (b == s.len() || is_space_char(s[b])) && (
        forall|x: int| a <= x < b ==> !is_space_char(#[trigger] s[x])) && w == s.subrange(a, b)
}

proof fn lemma_trim_start_skip(s: Seq<char>) -> (d: int)
    ensures
        0 <= d <= s.len(),
        trim_start_seq(s) == s.skip(d),
        forall|x: int| 0 <= x < d ==> is_space_char(#[trigger] s[x]),
    decreases s.len(),
{
    if s.len() > 0 && is_space_char(s[0]) {
        let t = s.drop_first();
        let d0 = lemma_trim_start_skip(t);
        assert(t.skip(d0) =~= s.skip(d0 + 1));
        assert forall|x: int| 0 <= x < d0 + 1 implies is_space_char(#[trigger] s[x]) by {
            if x > 0 {
                assert(s[x] == t[x - 1]);
            }
        }
        d0 + 1
    } else {
        assert(s.skip(0) =~= s);
        0
    }
}

proof fn lemma_word_len_shape(s: Seq<char>)
    ensures
        word_len(s) <= s.len(),
        forall|x: int| 0 <= x < word_len(s) ==> !is_space_char(#[trigger] s[x]),
        word_len(s) == s.len() || is_space_char(s[word_len(s) as int]),
    decreases s.len(),
{
    if s.len() > 0 && !is_space_char(s[0]) {
        let t = s.drop_first();
        lemma_word_len_shape(t);
        assert forall|x: int| 0 <= x < word_len(s) implies !is_space_char(#[trigger] s[x]) by {
            if x > 0 {
                assert(s[x] == t[x - 1]);
            }
        }
        if word_len(t) < t.len() {
            assert(s[word_len(s) as int] == t[word_len(t) as int]);
        }
    }
}

proof fn lemma_first_colon_word(s: Seq<char>)
    ensures
        first_colon_word(s) is None <==> !s.contains(':'),
        first_colon_word(s) matches Some(w) ==> word_at_first_colon(s, w),
    decreases s.len(),
{
    assert(!is_space_char(':'));
    let d = lemma_trim_start_skip(s);
    let t = trim_start_seq(s);
    if t.len() == 0 {
        assert forall|x: int| 0 <= x < s.len() implies s[x] != ':' by {
            assert(is_space_char(s[x]));
        }
    } else {
        lemma_trim_start_shape(s);
        lemma_word_len_shape(t);
        let k = word_len(t) as int;
        assert(k >= 1);
        assert forall|x: int| 0 <= x < t.len() implies #[trigger] t[x] == s[x + d] by {}
        if t.take(k).contains(':') {
            let w = t.take(k);
            let c0 = choose|c: int| 0 <= c < k && w[c] == ':';
            let c = lemma_first_index(w, c0);
            assert(s.subrange(d, d + k) =~= w);
            assert forall|x: int| 0 <= x < c + d implies #[trigger] s[x] != ':' by {
                if x >= d {
                    assert(s[x] == w[x - d]);
                }
            }
            assert forall|x: int| d <= x < d + k implies !is_space_char(#[trigger] s[x]) by {
                assert(s[x] == t[x - d]);
            }
            if d + k < s.len() {
                assert(s[d + k] == t[k]);
            }
            if d > 0 {
                assert(is_space_char(s[d - 1]));
            }
            assert(s[c + d] == ':');
            assert(word_at_first_colon(s, w));
        } else {
            let u = t.skip(k);
            assert(u =~= s.skip(d + k));
            lemma_first_colon_word(u);
            assert forall|x: int| 0 <= x < d + k implies #[trigger] s[x] != ':' by {
                if x >= d {
                    assert(s[x] == t.take(k)[x - d]);
                } else {
                    assert(is_space_char(s[x]));
                }
            }
            assert forall|x: int| 0 <= x < u.len() implies #[trigger] u[x] == s[x + d + k] by {}
            if s.contains(':') {
                let y = choose|y: int| 0 <= y < s.len() && s[y] == ':';
                assert(u[y - d - k] == ':');
            }
            if first_colon_word(u) is Some {
                let w = first_colon_word(u).unwrap();
                let (a, b, c) = choose|a: int, b: int, c: int|
                    #![trigger u.subrange(a, b), u[c]]
                    0 <= a <= c < b <= u.len() && u[c] == ':' && (forall|x: int|
                        0 <= x < c ==> #[trigger] u[x] != ':') && (a == 0 || is_space_char(u[a - 1]))
                        && (b == u.len() || is_space_char(u[b])) && (forall|x: int|
                        a <= x < b ==> !is_space_char(#[trigger] u[x])) && w == u.subrange(a, b);
                let o = d + k;
                if a == 0 {
                    assert(u[0] == t[k]);
                    assert(!is_space_char(u[0]));
                }
                assert(is_space_char(s[a + o - 1])) by {
                    assert(u[a - 1] == s[a - 1 + o]);
                }
                assert(s.subrange(a + o, b + o) =~= w);
                assert forall|x: int| 0 <= x < c + o implies #[trigger] s[x] != ':' by {
                    if x >= o {
                        assert(s[x] == u[x - o]);
                    }
                }
                assert forall|x: int| a + o <= x < b + o implies !is_space_char(#[trigger] s[x]) by {
                    assert(s[x] == u[x - o]);
                }
                if b + o < s.len() {
                    assert(s[b + o] == u[b]);
                }
                assert(s[c + o] == ':');
                assert(word_at_first_colon(s, w));
            }
        }
    }
}

proof fn lemma_first_index(w: Seq<char>, c0: int) -> (c: int)
    requires
        0 <= c0 < w.len(),
        w[c0] == ':',
    ensures
        0 <= c <= c0,
        w[c] == ':',
        forall|x: int| 0 <= x < c ==> #[trigger] w[x] != ':',
    decreases c0,
{
    if exists|x: int| 0 <= x < c0 && w[x] == ':' {
        let x = choose|x: int| 0 <= x < c0 && w[x] == ':';
        lemma_first_index(w, x)
    } else {
        c0
    }
}

/// What an org timestamp gives chrono: with `inner` its text without angle
/// brackets and surrounding white space, an `inner` without a space is read
/// as a date; otherwise the text before its first space is the date, and
/// where the rest holds a `:` the word of the rest that holds its first `:`
/// is the time, read together with the date (`date time`); where the rest
/// holds no `:`, the date is read alone.
pub proof fn law_timestamp_query(s: Seq<char>)
    ensures
        ({
            let inner = trim_seq(strip_trailing(strip_leading(s, '<'), '>'));
            let (text, timed) = timestamp_query_spec(s);
            &&& !inner.contains(' ') ==> text == inner && !timed
            &&& inner.contains(' ') ==> exists|i: int|
                0 <= i < inner.len() && inner[i] == ' ' && (forall|x: int|
                    0 <= x < i ==> #[trigger] inner[x] != ' ') && {
                    let rest = trim_seq(inner.skip(i + 1));
                    &&& rest.contains(':') ==> timed && exists|w: Seq<char>|
                        word_at_first_colon(rest, w) && text == inner.take(i) + seq![' '] + w
                    &&& !rest.contains(':') ==> !timed && text == inner.take(i)
                }
        }),
{
    let inner = trim_seq(strip_trailing(strip_leading(s, '<'), '>'));
    lemma_index_of(inner, ' ');
    if let Some(i) = index_of(inner, ' ') {
        let rest = trim_seq(inner.skip(i + 1));
        lemma_first_colon_word(rest);
        if let Some(w) = first_colon_word(rest) {
            assert(word_at_first_colon(rest, w));
        }
    }
}

proof fn lemma_index_of(s: Seq<char>, c: char)
    ensures
        index_of(s, c) is None <==> !s.contains(c),
        index_of(s, c) matches Some(i) ==> 0 <= i < s.len() && s[i] == c && forall|x: int|
            0 <= x < i ==> #[trigger] s[x] != c,
    decreases s.len(),
{
    if s.len() > 0 && s[0] != c {
        let t = s.drop_first();
        lemma_index_of(t, c);
        assert forall|x: int| 0 <= x < t.len() implies #[trigger] t[x] == s[x + 1] by {}
        if s.contains(c) {
            let y = choose|y: int| 0 <= y < s.len() && s[y] == c;
            assert(t[y - 1] == c);
        }
        if let Some(i) = index_of(t, c) {
            assert forall|x: int| 0 <= x < i + 1 implies #[trigger] s[x] != c by {
                if x > 0 {
                    assert(s[x] == t[x - 1]);
                }
            }
        }
    }
}

} // verus!
