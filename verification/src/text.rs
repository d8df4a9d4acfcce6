//! Character-level string helpers shared by the rest of the library.

use vstd::prelude::*;

verus! {

broadcast use vstd::string::group_string_axioms;

/// What `html_escape` writes for one character.
pub open spec fn escape_char(c: char) -> Seq<char> {
    if c == '&' {
        "&amp;"@
    } else if c == '<' {
        "&lt;"@
    } else if c == '>' {
        "&gt;"@
    } else if c == '"' {
        "&quot;"@
    } else {
        seq![c]
    }
}

/// The HTML-escaped form of a character sequence: each character replaced
/// by its escape, in order.
pub open spec fn escape_seq(s: Seq<char>) -> Seq<char>
    decreases s.len(),
{
    if s.len() == 0 {
        Seq::empty()
    } else {
        escape_seq(s.drop_last()) + escape_char(s.last())
    }
}

/// `String::push`: appends one character.
#[verifier::external_body]
pub fn push_char(s: &mut String, c: char)
    ensures
        final(s)@ == old(s)@.push(c),
{
    s.push(c);
}

/// Escape HTML special characters.
pub fn html_escape(s: &str) -> (r: String)
    ensures
        r@ == escape_seq(s@),
{
    let mut out = String::new();
    for c in it: s.chars()
        invariant
            it.seq() == s@,
            out@ == escape_seq(s@.take(it.index() as int)),
    {
        proof {
            assert(s@.take(it.index() + 1).drop_last() == s@.take(it.index() as int));
        }
        if c == '&' {
            out.append("&amp;");
        } else if c == '<' {
            out.append("&lt;");
        } else if c == '>' {
            out.append("&gt;");
        } else if c == '"' {
            out.append("&quot;");
        } else {
            push_char(&mut out, c);
        }
    }
    proof { assert(s@.take(s@.len() as int) == s@); }
    out
}

} // verus!

verus! {

/// Whether two strings hold the same characters.
pub fn str_is(s: &str, lit: &str) -> (r: bool)
    ensures
        r == (s@ == lit@),
{
    let n = s.unicode_len();
    let m = lit.unicode_len();
    if n != m {
        return false;
    }
    let mut i: usize = 0;
    while i < n
        invariant
            n == s@.len(),
            n == lit@.len(),
            i <= n,
            forall|k: int| 0 <= k < i ==> s@[k] == lit@[k],
        decreases n - i,
    {
        if s.get_char(i) != lit.get_char(i) {
            return false;
        }
        i = i + 1;
    }
    proof {
        assert(s@ =~= lit@);
    }
    true
}

} // verus!

verus! {

/// Unicode `White_Space`, the property that `char::is_whitespace` reads.
pub open spec fn is_space_char(c: char) -> bool {
    ||| ('\u{9}' <= c && c <= '\u{d}')
    ||| c == ' '
    ||| c == '\u{85}'
    ||| c == '\u{a0}'
    ||| c == '\u{1680}'
    ||| ('\u{2000}' <= c && c <= '\u{200a}')
    ||| c == '\u{2028}'
    ||| c == '\u{2029}'
    ||| c == '\u{202f}'
    ||| c == '\u{205f}'
    ||| c == '\u{3000}'
}

/// Whether `c` is white space (Unicode `White_Space`).
pub fn is_space(c: char) -> (r: bool)
    ensures
        r == is_space_char(c),
{
    ('\u{9}' <= c && c <= '\u{d}') || c == ' ' || c == '\u{85}' || c == '\u{a0}' || c
        == '\u{1680}' || ('\u{2000}' <= c && c <= '\u{200a}') || c == '\u{2028}' || c
        == '\u{2029}' || c == '\u{202f}' || c == '\u{205f}' || c == '\u{3000}'
}

/// `s` without its trailing white space.
pub open spec fn trim_end_seq(s: Seq<char>) -> Seq<char>
    decreases s.len(),
{
    if s.len() > 0 && is_space_char(s.last()) {
        trim_end_seq(s.drop_last())
    } else {
        s
    }
}

/// `s` without its leading white space.
pub open spec fn trim_start_seq(s: Seq<char>) -> Seq<char>
    decreases s.len(),
{
    if s.len() > 0 && is_space_char(s[0]) {
        trim_start_seq(s.drop_first())
    } else {
        s
    }
}

/// `s` without leading and trailing white space.
pub open spec fn trim_seq(s: Seq<char>) -> Seq<char> {
    trim_end_seq(trim_start_seq(s))
}

/// The characters of a string, in order.
pub fn chars_of(s: &str) -> (r: Vec<char>)
    ensures
        r@ == s@,
{
    let mut out: Vec<char> = Vec::new();
    for c in it: s.chars()
        invariant
            it.seq() == s@,
            out@ == s@.take(it.index() as int),
    {
        out.push(c);
        proof {
            assert(out@ == s@.take(it.index() + 1));
        }
    }
    proof {
        assert(s@.take(s@.len() as int) == s@);
    }
    out
}

/// A string made of `v[lo..hi]`.
pub fn string_of(v: &Vec<char>, lo: usize, hi: usize) -> (r: String)
    requires
        lo <= hi <= v@.len(),
    ensures
        r@ == v@.subrange(lo as int, hi as int),
{
    let mut out = String::new();
    let mut i = lo;
    while i < hi
        invariant
            lo <= i <= hi <= v@.len(),
            out@ == v@.subrange(lo as int, i as int),
        decreases hi - i,
    {
        push_char(&mut out, v[i]);
        i = i + 1;
        proof {
            assert(out@ == v@.subrange(lo as int, i as int));
        }
    }
    out
}

/// The index at which trailing white space of `v[lo..hi]` begins.
pub fn trim_end_index(v: &Vec<char>, lo: usize, hi: usize) -> (r: usize)
    requires
        lo <= hi <= v@.len(),
    ensures
        lo <= r <= hi,
        v@.subrange(lo as int, r as int) == trim_end_seq(v@.subrange(lo as int, hi as int)),
        r > lo ==> !is_space_char(v@[r - 1]),
{
    let mut j = hi;
    while j > lo && is_space(v[j - 1])
        invariant
            lo <= j <= hi <= v@.len(),
            trim_end_seq(v@.subrange(lo as int, hi as int)) == trim_end_seq(
                v@.subrange(lo as int, j as int),
            ),
        decreases j,
    {
        proof {
            let s = v@.subrange(lo as int, j as int);
            assert(s.drop_last() == v@.subrange(lo as int, j - 1));
        }
        j = j - 1;
    }
    j
}

/// The index at which leading white space of `v[lo..hi]` ends.
pub fn trim_start_index(v: &Vec<char>, lo: usize, hi: usize) -> (r: usize)
    requires
        lo <= hi <= v@.len(),
    ensures
        lo <= r <= hi,
        v@.subrange(r as int, hi as int) == trim_start_seq(v@.subrange(lo as int, hi as int)),
        r < hi ==> !is_space_char(v@[r as int]),
{
    let mut j = lo;
    while j < hi && is_space(v[j])
        invariant
            lo <= j <= hi <= v@.len(),
            trim_start_seq(v@.subrange(lo as int, hi as int)) == trim_start_seq(
                v@.subrange(j as int, hi as int),
            ),
        decreases hi - j,
    {
        proof {
            let s = v@.subrange(j as int, hi as int);
            assert(s.drop_first() == v@.subrange(j + 1, hi as int));
        }
        j = j + 1;
    }
    j
}

/// `s` without its trailing white space (`str::trim_end`).
pub fn trim_end(s: &str) -> (r: String)
    ensures
        r@ == trim_end_seq(s@),
{
    let v = chars_of(s);
    let e = trim_end_index(&v, 0, v.len());
    proof {
        assert(v@.subrange(0, v@.len() as int) == v@);
    }
    string_of(&v, 0, e)
}

} // verus!

verus! {

/// The characters of an optional string.
pub open spec fn opt_chars(o: Option<String>) -> Option<Seq<char>> {
    match o {
        Some(s) => Some(s@),
        None => None,
    }
}

/// Whether `v[lo..hi]` holds `c`.
pub fn has_char(v: &Vec<char>, lo: usize, hi: usize, c: char) -> (r: bool)
    requires
        lo <= hi <= v@.len(),
    ensures
        r == v@.subrange(lo as int, hi as int).contains(c),
{
    let mut i = lo;
    while i < hi
        invariant
            lo <= i <= hi <= v@.len(),
            forall|k: int| lo <= k < i ==> v@[k] != c,
        decreases hi - i,
    {
        if v[i] == c {
            proof {
                assert(v@.subrange(lo as int, hi as int)[i - lo] == c);
            }
            return true;
        }
        i = i + 1;
    }
    proof {
        if v@.subrange(lo as int, hi as int).contains(c) {
            let k = choose|k: int|
                0 <= k < hi - lo && v@.subrange(lo as int, hi as int)[k] == c;
            assert(v@[lo + k] == c);
        }
    }
    false
}

} // verus!

verus! {

/// Whether `c` is one of the characters that HTML escaping replaces.
pub open spec fn is_markup_char(c: char) -> bool {
    c == '&' || c == '<' || c == '>' || c == '"'
}

proof fn lemma_escape_char_safe(c: char)
    ensures
        forall|i: int|
            0 <= i < escape_char(c).len() ==> #[trigger] escape_char(c)[i] != '<'
                && escape_char(c)[i] != '>' && escape_char(c)[i] != '"',
{
    reveal_strlit("&amp;");
    reveal_strlit("&lt;");
    reveal_strlit("&gt;");
    reveal_strlit("&quot;");
}

/// Escaped text holds no `<`, `>` or `"`: it cannot open a tag or close an
/// attribute.
pub proof fn law_escape_no_markup(s: Seq<char>)
    ensures
        forall|i: int|
            0 <= i < escape_seq(s).len() ==> #[trigger] escape_seq(s)[i] != '<'
                && escape_seq(s)[i] != '>' && escape_seq(s)[i] != '"',
    decreases s.len(),
{
    if s.len() > 0 {
        law_escape_no_markup(s.drop_last());
        lemma_escape_char_safe(s.last());
        let a = escape_seq(s.drop_last());
        let b = escape_char(s.last());
        assert forall|i: int| 0 <= i < escape_seq(s).len() implies #[trigger] escape_seq(s)[i]
            != '<' && escape_seq(s)[i] != '>' && escape_seq(s)[i] != '"' by {
            if i < a.len() {
                assert(escape_seq(s)[i] == a[i]);
            } else {
                assert(escape_seq(s)[i] == b[i - a.len()]);
            }
        }
    }
}

/// Escaping works character by character: the escape of a concatenation is
/// the concatenation of the escapes.
pub proof fn law_escape_concat(a: Seq<char>, b: Seq<char>)
    ensures
        escape_seq(a + b) == escape_seq(a) + escape_seq(b),
    decreases b.len(),
{
    if b.len() == 0 {
        assert(a + b == a);
        assert(escape_seq(b) == Seq::<char>::empty());
        assert(escape_seq(a) + escape_seq(b) == escape_seq(a));
    } else {
        assert((a + b).drop_last() == a + b.drop_last());
        assert((a + b).last() == b.last());
        law_escape_concat(a, b.drop_last());
        assert(escape_seq(a) + escape_seq(b) == escape_seq(a) + escape_seq(b.drop_last())
            + escape_char(b.last()));
    }
}

/// Reads escaped text back: scanning from the left, `&quot;`, `&amp;`,
/// `&lt;` and `&gt;` become `"`, `&`, `<` and `>`; any other character
/// stays as it is.
pub open spec fn unescape_seq(s: Seq<char>) -> Seq<char>
    decreases s.len(),
{
    if s.len() == 0 {
        Seq::empty()
    } else if s.len() >= 6 && s.take(6) == "&quot;"@ {
        seq!['"'] + unescape_seq(s.skip(6))
    } else if s.len() >= 5 && s.take(5) == "&amp;"@ {
        seq!['&'] + unescape_seq(s.skip(5))
    } else if s.len() >= 4 && s.take(4) == "&lt;"@ {
        seq!['<'] + unescape_seq(s.skip(4))
    } else if s.len() >= 4 && s.take(4) == "&gt;"@ {
        seq!['>'] + unescape_seq(s.skip(4))
    } else {
        seq![s[0]] + unescape_seq(s.skip(1))
    }
}

proof fn lemma_unescape_char(c: char, rest: Seq<char>)
    ensures
        unescape_seq(escape_char(c) + rest) == seq![c] + unescape_seq(rest),
{
    reveal_strlit("&amp;");
    reveal_strlit("&lt;");
    reveal_strlit("&gt;");
    reveal_strlit("&quot;");
    let e = escape_char(c);
    let x = e + rest;
    assert(x.skip(e.len() as int) == rest);
    if c == '&' {
        assert(x[1] == 'a');
        assert(x.len() >= 6 ==> x.take(6)[1] != "&quot;"@[1]);
        assert(x.take(5) == "&amp;"@);
    } else if c == '<' {
        assert(x[1] == 'l');
        assert(x.len() >= 6 ==> x.take(6)[1] != "&quot;"@[1]);
        assert(x.len() >= 5 ==> x.take(5)[1] != "&amp;"@[1]);
        assert(x.take(4) == "&lt;"@);
    } else if c == '>' {
        assert(x[1] == 'g');
        assert(x.len() >= 6 ==> x.take(6)[1] != "&quot;"@[1]);
        assert(x.len() >= 5 ==> x.take(5)[1] != "&amp;"@[1]);
        assert(x.take(4)[1] != "&lt;"@[1]);
        assert(x.take(4) == "&gt;"@);
    } else if c == '"' {
        assert(x.take(6) == "&quot;"@);
    } else {
        assert(x[0] == c);
        assert(x.len() >= 6 ==> x.take(6)[0] != "&quot;"@[0]);
        assert(x.len() >= 5 ==> x.take(5)[0] != "&amp;"@[0]);
        assert(x.len() >= 4 ==> x.take(4)[0] != "&lt;"@[0]);
        assert(x.len() >= 4 ==> x.take(4)[0] != "&gt;"@[0]);
    }
}

/// Escaping loses nothing: reading the escape back gives the text.
pub proof fn law_unescape_escape(s: Seq<char>)
    ensures
        unescape_seq(escape_seq(s)) == s,
    decreases s.len(),
{
    if s.len() > 0 {
        let rest = s.skip(1);
        assert(s == seq![s[0]] + rest);
        law_escape_concat(seq![s[0]], rest);
        assert(seq![s[0]].drop_last() == Seq::<char>::empty());
        assert(seq![s[0]].last() == s[0]);
        assert(escape_seq(Seq::<char>::empty()) == Seq::<char>::empty());
        assert(Seq::<char>::empty() + escape_char(s[0]) =~= escape_char(s[0]));
        assert(escape_seq(seq![s[0]]) == escape_char(s[0]));
        lemma_unescape_char(s[0], escape_seq(rest));
        law_unescape_escape(rest);
    }
}

/// Escaping is injective: different texts have different escapes.
pub proof fn law_escape_injective(a: Seq<char>, b: Seq<char>)
    requires
        escape_seq(a) == escape_seq(b),
    ensures
        a == b,
{
    law_unescape_escape(a);
    law_unescape_escape(b);
}

/// Trimming the end drops exactly the trailing white space: what is left
/// is a prefix of the text that does not end in white space, and all that
/// was dropped is white space.
pub proof fn law_trim_end(s: Seq<char>)
    ensures
        trim_end_seq(s) == s.take(trim_end_seq(s).len() as int),
        trim_end_seq(s).len() <= s.len(),
        trim_end_seq(s).len() > 0 ==> !is_space_char(trim_end_seq(s).last()),
        forall|i: int| trim_end_seq(s).len() <= i < s.len() ==> is_space_char(#[trigger] s[i]),
    decreases s.len(),
{
    if s.len() > 0 && is_space_char(s.last()) {
        let t = s.drop_last();
        law_trim_end(t);
        assert forall|i: int| trim_end_seq(s).len() <= i < s.len() implies is_space_char(
            #[trigger] s[i],
        ) by {
            if i < t.len() {
                assert(s[i] == t[i]);
            }
        }
        assert(t.take(trim_end_seq(t).len() as int) =~= s.take(trim_end_seq(t).len() as int));
    } else {
        assert(s.take(s.len() as int) =~= s);
    }
}

/// Text without `&`, `<`, `>` or `"` is left as it is.
pub proof fn law_escape_plain(s: Seq<char>)
    requires
        forall|i: int| 0 <= i < s.len() ==> !is_markup_char(#[trigger] s[i]),
    ensures
        escape_seq(s) == s,
    decreases s.len(),
{
    if s.len() > 0 {
        assert(!is_markup_char(s[s.len() - 1]));
        assert forall|i: int| 0 <= i < s.drop_last().len() implies !is_markup_char(
            #[trigger] s.drop_last()[i],
        ) by {
            assert(s.drop_last()[i] == s[i]);
        }
        law_escape_plain(s.drop_last());
        assert(s.drop_last().push(s.last()) == s);
    }
}

} // verus!

verus! {

/// Whether `s` ends with `suffix` (`str::ends_with`).
pub fn ends_with(s: &str, suffix: &str) -> (r: bool)
    ensures
        r == (s@.len() >= suffix@.len() && s@.skip(s@.len() - suffix@.len()) == suffix@),
{
    let n = s.unicode_len();
    let m = suffix.unicode_len();
    if n < m {
        return false;
    }
    let mut i: usize = 0;
    while i < m
        invariant
            n == s@.len(),
            m == suffix@.len(),
            m <= n,
            i <= m,
            forall|k: int| 0 <= k < i ==> s@[n - m + k] == suffix@[k],
        decreases m - i,
    {
        if s.get_char(n - m + i) != suffix.get_char(i) {
            proof {
                assert(s@.skip(n - m)[i as int] != suffix@[i as int]);
            }
            return false;
        }
        i = i + 1;
    }
    proof {
        assert(s@.skip(n - m) =~= suffix@);
    }
    true
}

} // verus!
