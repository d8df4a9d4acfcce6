//! URL slugs: the slug of a title, and the tables that map node UUIDs to
//! slugs and every URL path of a node to its UUID.

use vstd::prelude::*;

pub use crate::map::SlugMap;
use crate::order::{
    key_order, key_sorted_indices, law_key_order, lemma_less_irreflexive, lemma_less_total,
    lemma_sorted_unique, sorted_by_key, text_le, text_less,
};
use crate::text::{chars_of, opt_chars, push_char, string_of};
use crate::types::NodeFile;
use crate::unicode::{
    char_is_alphanumeric, char_lowercase_first, is_alphanumeric, is_ascii_text, is_ascii_upper,
    lowercase, lowercase_first, str_lowercase,
};

verus! {

/// What a left-to-right pass over `s` builds before the final trim: each
/// alphanumeric character lowercased; a run of other characters after
/// something was written becomes one `-`. The flag tells whether the last
/// thing written was such a `-`.
pub open spec fn slug_pass(s: Seq<char>) -> (Seq<char>, bool)
    decreases s.len(),
{
    if s.len() == 0 {
        (Seq::empty(), false)
    } else {
        let (acc, hyphen) = slug_pass(s.drop_last());
        let c = s.last();
        if char_is_alphanumeric(c) {
            (acc.push(char_lowercase_first(c)), false)
        } else if !hyphen && acc.len() > 0 {
            (acc.push('-'), true)
        } else {
            (acc, hyphen)
        }
    }
}

/// The slug of `s`: the pass of `slug_pass` without a trailing `-`.
pub open spec fn slugify_spec(s: Seq<char>) -> Seq<char> {
    let raw = slug_pass(s).0;
    if raw.len() > 0 && raw.last() == '-' {
        raw.drop_last()
    } else {
        raw
    }
}

/// What the slug reads of each character: whether it is alphanumeric, and
/// its lowercase.
pub open spec fn char_classes(s: Seq<char>) -> Seq<(bool, char)> {
    s.map_values(|c: char| (char_is_alphanumeric(c), char_lowercase_first(c)))
}

/// `slug_pass` over characters already read as (alphanumeric, lowercase).
pub open spec fn class_pass(cs: Seq<(bool, char)>) -> (Seq<char>, bool)
    decreases cs.len(),
{
    if cs.len() == 0 {
        (Seq::empty(), false)
    } else {
        let (acc, hyphen) = class_pass(cs.drop_last());
        let (alnum, low) = cs.last();
        if alnum {
            (acc.push(low), false)
        } else if !hyphen && acc.len() > 0 {
            (acc.push('-'), true)
        } else {
            (acc, hyphen)
        }
    }
}

/// The slug of characters read as (alphanumeric, lowercase): the pass of
/// `class_pass` without a trailing `-`.
pub open spec fn slug_of_classes(cs: Seq<(bool, char)>) -> Seq<char> {
    let raw = class_pass(cs).0;
    if raw.len() > 0 && raw.last() == '-' {
        raw.drop_last()
    } else {
        raw
    }
}

proof fn lemma_class_pass(s: Seq<char>)
    ensures
        class_pass(char_classes(s)) == slug_pass(s),
    decreases s.len(),
{
    if s.len() > 0 {
        lemma_class_pass(s.drop_last());
        assert(char_classes(s).drop_last() == char_classes(s.drop_last()));
    }
}

/// The slug of a text whose characters have been read as (alphanumeric,
/// lowercase) pairs, as `slugify` reads them with `char::is_alphanumeric`
/// and `char::to_lowercase`.
pub fn slug_from_classes(classes: &Vec<(bool, char)>) -> (r: String)
    ensures
        r@ == slug_of_classes(classes@),
{
    let mut raw: Vec<char> = Vec::new();
    let mut prev_hyphen = false;
    let n = classes.len();
    let mut k: usize = 0;
    while k < n
        invariant
            k <= n == classes@.len(),
            class_pass(classes@.take(k as int)) == (raw@, prev_hyphen),
        decreases n - k,
    {
        proof {
            assert(classes@.take(k + 1).drop_last() == classes@.take(k as int));
        }
        let (alnum, low) = classes[k];
        if alnum {
            raw.push(low);
            prev_hyphen = false;
        } else if !prev_hyphen && raw.len() > 0 {
            raw.push('-');
            prev_hyphen = true;
        }
        k = k + 1;
    }
    proof {
        assert(classes@.take(n as int) == classes@);
    }
    let mut end = raw.len();
    if end > 0 && raw[end - 1] == '-' {
        end = end - 1;
    }
    let mut out = String::new();
    let mut i: usize = 0;
    while i < end
        invariant
            end <= raw@.len(),
            i <= end,
            out@ == raw@.take(i as int),
        decreases end - i,
    {
        push_char(&mut out, raw[i]);
        i = i + 1;
        proof {
            assert(out@ == raw@.take(i as int));
        }
    }
    proof {
        assert(raw@.take(raw@.len() as int) == raw@);
        assert(raw@.take(raw@.len() - 1) == raw@.drop_last());
    }
    out
}

/// Convert a string to a URL-safe slug.
/// Lowercases, replaces non-alphanumeric chars with hyphens,
/// deduplicates consecutive hyphens, trims leading/trailing hyphens.
/// The slug holds only `-` and lowercase alphanumeric characters (never an
/// ASCII capital), never starts or ends with `-` nor holds `--`, is the
/// hyphenate-collapse-trim form above, and is its own slug: slugifying twice
/// gives what slugifying once gives.
pub fn slugify(text: &str) -> (r: String)
    ensures
        r@ == slugify_spec(text@),
        r@ == trim_hyphens(collapse_hyphens(hyphenated(text@))),
        slugify_spec(r@) == r@,
        hyphens_tidy(r@),
        forall|i: int|
            0 <= i < r@.len() ==> #[trigger] r@[i] == '-' || (char_is_alphanumeric(r@[i])
                && char_lowercase_first(r@[i]) == r@[i] && !is_ascii_upper(r@[i])),
{
    let mut classes: Vec<(bool, char)> = Vec::new();
    for ch in it: text.chars()
        invariant
            it.seq() == text@,
            classes@ == char_classes(text@.take(it.index() as int)),
            forall|i: int|
                0 <= i < it.index() && char_is_alphanumeric(#[trigger] text@[i]) ==> lowercase_settled(
                    text@[i],
                ),
            forall|i: int| 0 <= i < it.index() ==> !is_ascii_upper(char_lowercase_first(#[trigger] text@[i])),
    {
        classes.push((is_alphanumeric(ch), lowercase_first(ch)));
        proof {
            assert(classes@ == char_classes(text@.take(it.index() + 1)));
        }
    }
    proof {
        assert(text@.take(text@.len() as int) == text@);
        lemma_class_pass(text@);
    }
    // std's answer for `-` (not alphanumeric) is what makes the slug's own
    // hyphens read as separators when the slug is slugified again.
    let hyphen_is_alphanumeric = is_alphanumeric('-');
    proof {
        assert(!hyphen_is_alphanumeric);
        law_slugify_idempotent(text@);
        law_slug_shape(text@);
        law_slug_chars(text@);
        law_slug_split_join(text@);
        let r = slugify_spec(text@);
        assert forall|i: int| 0 <= i < r.len() implies #[trigger] r[i] == '-' || (char_is_alphanumeric(
            r[i],
        ) && char_lowercase_first(r[i]) == r[i] && !is_ascii_upper(r[i])) by {
            if r[i] != '-' {
                let j = choose|j: int|
                    0 <= j < text@.len() && char_is_alphanumeric(text@[j]) && r[i]
                        == char_lowercase_first(#[trigger] text@[j]);
                assert(lowercase_settled(text@[j]));
            }
        }
    }
    slug_from_classes(&classes)
}


/// Lowercasing keeps alphanumeric characters of `s` apart from `-` (true of
/// every Unicode character; stated here because the case mapping is not).
pub open spec fn lowercase_avoids_hyphen(s: Seq<char>) -> bool {
    forall|i: int|
        0 <= i < s.len() && char_is_alphanumeric(#[trigger] s[i]) ==> char_lowercase_first(s[i])
            != '-'
}

/// No `-` at either end and no two `-` in a row.
pub open spec fn hyphens_tidy(r: Seq<char>) -> bool {
    &&& r.len() > 0 ==> r[0] != '-' && r.last() != '-'
    &&& forall|i: int| 0 <= i < r.len() - 1 ==> !(#[trigger] r[i] == '-' && r[i + 1] == '-')
}

proof fn lemma_slug_pass_tidy(s: Seq<char>)
    requires
        lowercase_avoids_hyphen(s),
    ensures
        ({
            let (raw, hyphen) = slug_pass(s);
            &&& hyphen <==> (raw.len() > 0 && raw.last() == '-')
            &&& raw.len() > 0 ==> raw[0] != '-'
            &&& forall|i: int|
                0 <= i < raw.len() - 1 ==> !(#[trigger] raw[i] == '-' && raw[i + 1] == '-')
            &&& (raw.len() == 0 <==> forall|j: int|
                0 <= j < s.len() ==> !char_is_alphanumeric(#[trigger] s[j]))
        }),
    decreases s.len(),
{
    if s.len() > 0 {
        let t = s.drop_last();
        assert forall|i: int|
            0 <= i < t.len() && char_is_alphanumeric(#[trigger] t[i]) implies char_lowercase_first(
            t[i],
        ) != '-' by {
            assert(t[i] == s[i]);
        }
        lemma_slug_pass_tidy(t);
        let (acc, hyphen) = slug_pass(t);
        let (raw, h2) = slug_pass(s);
        assert(char_is_alphanumeric(s[s.len() - 1]) ==> char_lowercase_first(s[s.len() - 1])
            != '-');
        if acc.len() == 0 {
            assert forall|j: int| 0 <= j < t.len() implies !char_is_alphanumeric(
                #[trigger] s[j],
            ) by {
                assert(t[j] == s[j]);
            }
        } else {
            let j0 = choose|j: int| 0 <= j < t.len() && char_is_alphanumeric(#[trigger] t[j]);
            assert(s[j0] == t[j0]);
        }
        assert forall|i: int| 0 <= i < raw.len() - 1 implies !(#[trigger] raw[i] == '-' && raw[i
            + 1] == '-') by {
            if i < acc.len() - 1 {
                assert(raw[i] == acc[i] && raw[i + 1] == acc[i + 1]);
            }
        }
    }
}

/// The slug never starts or ends with `-` and never holds `--`; it is empty
/// exactly when the text has no alphanumeric character.
pub proof fn law_slug_shape(s: Seq<char>)
    requires
        lowercase_avoids_hyphen(s),
    ensures
        hyphens_tidy(slugify_spec(s)),
        slugify_spec(s).len() == 0 <==> forall|j: int|
            0 <= j < s.len() ==> !char_is_alphanumeric(#[trigger] s[j]),
{
    lemma_slug_pass_tidy(s);
    let raw = slug_pass(s).0;
    let r = slugify_spec(s);
    if raw.len() > 0 && raw.last() == '-' {
        assert(raw.len() >= 2);
        assert(!(raw[raw.len() - 2] == '-' && raw[raw.len() - 1] == '-'));
        assert forall|i: int| 0 <= i < r.len() - 1 implies !(#[trigger] r[i] == '-' && r[i + 1]
            == '-') by {
            assert(r[i] == raw[i] && r[i + 1] == raw[i + 1]);
        }
    }
}

/// Every character of a slug is `-` or the lowercase of an alphanumeric
/// character of the text.
pub proof fn law_slug_chars(s: Seq<char>)
    ensures
        forall|i: int|
            0 <= i < slugify_spec(s).len() ==> #[trigger] slugify_spec(s)[i] == '-' || exists|j: int|
                0 <= j < s.len() && char_is_alphanumeric(s[j]) && slugify_spec(s)[i]
                    == char_lowercase_first(#[trigger] s[j]),
{
    lemma_slug_pass_chars(s);
    let raw = slug_pass(s).0;
    let r = slugify_spec(s);
    assert forall|i: int| 0 <= i < r.len() implies #[trigger] r[i] == '-' || exists|j: int|
        0 <= j < s.len() && char_is_alphanumeric(s[j]) && r[i] == char_lowercase_first(
            #[trigger] s[j],
        ) by {
        assert(r[i] == raw[i]);
    }
}

proof fn lemma_slug_pass_chars(s: Seq<char>)
    ensures
        forall|i: int|
            0 <= i < slug_pass(s).0.len() ==> #[trigger] slug_pass(s).0[i] == '-' || exists|j: int|
                0 <= j < s.len() && char_is_alphanumeric(s[j]) && slug_pass(s).0[i]
                    == char_lowercase_first(#[trigger] s[j]),
    decreases s.len(),
{
    if s.len() > 0 {
        let t = s.drop_last();
        lemma_slug_pass_chars(t);
        let acc = slug_pass(t).0;
        let raw = slug_pass(s).0;
        assert forall|i: int| 0 <= i < raw.len() implies #[trigger] raw[i] == '-' || exists|j: int|
            0 <= j < s.len() && char_is_alphanumeric(s[j]) && raw[i] == char_lowercase_first(
                #[trigger] s[j],
            ) by {
            if i < acc.len() {
                assert(raw[i] == acc[i]);
                if acc[i] != '-' {
                    let j = choose|j: int|
                        0 <= j < t.len() && char_is_alphanumeric(t[j]) && acc[i]
                            == char_lowercase_first(#[trigger] t[j]);
                    assert(s[j] == t[j]);
                }
            } else {
                if raw[i] != '-' {
                    assert(raw[i] == char_lowercase_first(s[s.len() - 1]));
                }
            }
        }
    }
}

/// Which non-alphanumeric character separates words does not matter: texts
/// that differ only in such characters have the same slug.
pub proof fn law_slug_separators(s1: Seq<char>, s2: Seq<char>)
    requires
        s1.len() == s2.len(),
        forall|i: int|
            0 <= i < s1.len() ==> (#[trigger] s1[i] == s2[i] || (!char_is_alphanumeric(s1[i])
                && !char_is_alphanumeric(s2[i]))),
    ensures
        slugify_spec(s1) == slugify_spec(s2),
    decreases s1.len(),
{
    lemma_slug_pass_separators(s1, s2);
}

proof fn lemma_slug_pass_separators(s1: Seq<char>, s2: Seq<char>)
    requires
        s1.len() == s2.len(),
        forall|i: int|
            0 <= i < s1.len() ==> (#[trigger] s1[i] == s2[i] || (!char_is_alphanumeric(s1[i])
                && !char_is_alphanumeric(s2[i]))),
    ensures
        slug_pass(s1) == slug_pass(s2),
    decreases s1.len(),
{
    if s1.len() > 0 {
        let t1 = s1.drop_last();
        let t2 = s2.drop_last();
        assert forall|i: int| 0 <= i < t1.len() implies (#[trigger] t1[i] == t2[i] || (
        !char_is_alphanumeric(t1[i]) && !char_is_alphanumeric(t2[i]))) by {
            assert(t1[i] == s1[i] && t2[i] == s2[i]);
        }
        lemma_slug_pass_separators(t1, t2);
        assert(s1[s1.len() - 1] == s2[s1.len() - 1] || (!char_is_alphanumeric(s1[s1.len() - 1])
            && !char_is_alphanumeric(s2[s1.len() - 1])));
    }
}


/// Lowercasing `c` gives an alphanumeric character other than `-` that
/// lowercases to itself (true of every alphanumeric character in Unicode;
/// stated here because the case mapping is not).
pub open spec fn lowercase_settled(c: char) -> bool {
    &&& char_is_alphanumeric(char_lowercase_first(c))
    &&& char_lowercase_first(char_lowercase_first(c)) == char_lowercase_first(c)
    &&& char_lowercase_first(c) != '-'
}

/// A text made of `-` and alphanumeric characters that lowercase to
/// themselves, with tidy hyphens, passes through `slug_pass` unchanged.
proof fn lemma_slug_pass_settled(r: Seq<char>, k: int)
    requires
        0 <= k <= r.len(),
        !char_is_alphanumeric('-'),
        hyphens_tidy(r),
        forall|i: int|
            0 <= i < r.len() ==> #[trigger] r[i] == '-' || (char_is_alphanumeric(r[i])
                && char_lowercase_first(r[i]) == r[i]),
    ensures
        slug_pass(r.take(k)) == (r.take(k), k > 0 && r[k - 1] == '-'),
    decreases k,
{
    if k > 0 {
        lemma_slug_pass_settled(r, k - 1);
        assert(r.take(k).drop_last() == r.take(k - 1));
        assert(r.take(k).last() == r[k - 1]);
        if r[k - 1] == '-' {
            assert(k - 1 > 0);
            assert(!(r[k - 2] == '-' && r[k - 1] == '-'));
        }
        assert(r.take(k - 1).push(r[k - 1]) == r.take(k));
    }
}

/// Slugs are fixed points: the slug of a slug is the slug itself. Stated
/// for texts whose alphanumeric characters lowercase as `lowercase_settled`
/// says, and with `-` not alphanumeric (both true of Unicode).
pub proof fn law_slugify_idempotent(s: Seq<char>)
    requires
        !char_is_alphanumeric('-'),
        forall|i: int|
            0 <= i < s.len() && char_is_alphanumeric(#[trigger] s[i]) ==> lowercase_settled(s[i]),
    ensures
        slugify_spec(slugify_spec(s)) == slugify_spec(s),
{
    let r = slugify_spec(s);
    law_slug_shape(s);
    law_slug_chars(s);
    assert forall|i: int| 0 <= i < r.len() implies #[trigger] r[i] == '-' || (char_is_alphanumeric(
        r[i],
    ) && char_lowercase_first(r[i]) == r[i]) by {
        if r[i] != '-' {
            let j = choose|j: int|
                0 <= j < s.len() && char_is_alphanumeric(s[j]) && r[i] == char_lowercase_first(
                    #[trigger] s[j],
                );
            assert(lowercase_settled(s[j]));
        }
    }
    lemma_slug_pass_settled(r, r.len() as int);
    assert(r.take(r.len() as int) == r);
}

/// Each character of `s`: an alphanumeric one lowercased, any other as `-`.
pub open spec fn hyphenated(s: Seq<char>) -> Seq<char> {
    s.map_values(|c: char| if char_is_alphanumeric(c) { char_lowercase_first(c) } else { '-' })
}

/// `t` with each run of `-` collapsed to one `-`.
pub open spec fn collapse_hyphens(t: Seq<char>) -> Seq<char>
    decreases t.len(),
{
    if t.len() == 0 {
        Seq::empty()
    } else {
        let d = collapse_hyphens(t.drop_last());
        if t.last() == '-' && d.len() > 0 && d.last() == '-' {
            d
        } else {
            d.push(t.last())
        }
    }
}

/// `t` without a `-` at its start and without one at its end.
pub open spec fn trim_hyphens(t: Seq<char>) -> Seq<char> {
    let a = if t.len() > 0 && t[0] == '-' {
        t.skip(1)
    } else {
        t
    };
    if a.len() > 0 && a.last() == '-' {
        a.drop_last()
    } else {
        a
    }
}

proof fn lemma_collapse_pass(s: Seq<char>)
    requires
        lowercase_avoids_hyphen(s),
    ensures
        collapse_hyphens(hyphenated(s)) == (if s.len() > 0 && !char_is_alphanumeric(s[0]) {
            seq!['-'] + slug_pass(s).0
        } else {
            slug_pass(s).0
        }),
    decreases s.len(),
{
    if s.len() > 0 {
        let t = s.drop_last();
        assert forall|i: int|
            0 <= i < t.len() && char_is_alphanumeric(#[trigger] t[i]) implies char_lowercase_first(
            t[i],
        ) != '-' by {
            assert(t[i] == s[i]);
        }
        lemma_collapse_pass(t);
        lemma_slug_pass_tidy(t);
        lemma_slug_pass_tidy(s);
        assert(hyphenated(s).drop_last() == hyphenated(t));
        let c = s.last();
        assert(char_is_alphanumeric(s[s.len() - 1]) ==> char_lowercase_first(s[s.len() - 1]) != '-');
        let acc = slug_pass(t).0;
        let d = collapse_hyphens(hyphenated(t));
        if t.len() > 0 {
            assert(t[0] == s[0]);
            if acc.len() == 0 && !char_is_alphanumeric(s[0]) {
                assert(d == seq!['-'] + acc);
                assert(d =~= seq!['-']);
            }
            if acc.len() == 0 && char_is_alphanumeric(s[0]) {
                assert(char_is_alphanumeric(t[0]));
            }
        }
        if acc.len() > 0 {
            assert(d.last() == acc.last());
        }
        if char_is_alphanumeric(c) {
            if t.len() > 0 && !char_is_alphanumeric(s[0]) {
                assert((seq!['-'] + acc).push(char_lowercase_first(c)) =~= seq!['-'] + acc.push(
                    char_lowercase_first(c),
                ));
            }
        } else {
            if t.len() > 0 && !char_is_alphanumeric(s[0]) && !(d.len() > 0 && d.last() == '-') {
                assert((seq!['-'] + acc).push('-') =~= seq!['-'] + acc.push('-'));
            }
            if t.len() == 0 {
                assert(d =~= Seq::<char>::empty());
                assert(Seq::<char>::empty().push('-') =~= seq!['-'] + Seq::<char>::empty());
            }
        }
    }
}

/// The slug as its doc describes it: non-alphanumeric characters become
/// `-`, alphanumeric ones are lowercased, each run of `-` becomes one, and a
/// `-` at either end is dropped. Stated where lowercasing keeps alphanumeric
/// characters apart from `-` (true of Unicode).
pub proof fn law_slug_split_join(s: Seq<char>)
    requires
        lowercase_avoids_hyphen(s),
    ensures
        slugify_spec(s) == trim_hyphens(collapse_hyphens(hyphenated(s))),
{
    lemma_collapse_pass(s);
    lemma_slug_pass_tidy(s);
    let acc = slug_pass(s).0;
    if s.len() > 0 && !char_is_alphanumeric(s[0]) {
        assert((seq!['-'] + acc).skip(1) =~= acc);
    }
}

/// The bytes that UTF-8 takes for `c` (`char::len_utf8`).
pub open spec fn utf8_width(c: char) -> nat {
    if (c as u32) < 0x80 {
        1
    } else if (c as u32) < 0x800 {
        2
    } else if (c as u32) < 0x10000 {
        3
    } else {
        4
    }
}

/// The bytes that UTF-8 takes for `s` (`str::len`).
pub open spec fn utf8_len(s: Seq<char>) -> nat
    decreases s.len(),
{
    if s.len() == 0 {
        0
    } else {
        utf8_len(s.drop_last()) + utf8_width(s.last())
    }
}

/// The characters of the first `n` bytes of `s`, where byte `n` is a
/// character boundary (where `&s[..n]` does not panic).
pub open spec fn byte_prefix(s: Seq<char>, n: nat) -> Option<Seq<char>> {
    if exists|k: int| 0 <= k <= s.len() && #[trigger] utf8_len(s.take(k)) == n {
        Some(s.take(choose|k: int| 0 <= k <= s.len() && #[trigger] utf8_len(s.take(k)) == n))
    } else {
        None
    }
}

/// `s` without any `c`.
pub open spec fn remove_all(s: Seq<char>, c: char) -> Seq<char>
    decreases s.len(),
{
    if s.len() == 0 {
        Seq::empty()
    } else if s.last() == c {
        remove_all(s.drop_last(), c)
    } else {
        remove_all(s.drop_last(), c).push(s.last())
    }
}

/// What tells a node's slug apart when its base slug is taken: the first 8
/// bytes (all, when fewer) of its UUID without `-`, lowercased; `None` where
/// byte 8 falls inside a character (the cut panics there).
pub open spec fn uuid_suffix(id: Seq<char>) -> Option<Seq<char>> {
    eight_byte_prefix_spec(str_lowercase(remove_all(id, '-')))
}

/// The first 8 bytes of `low` (all, when fewer); `None` where byte 8 falls
/// inside a character.
pub open spec fn eight_byte_prefix_spec(low: Seq<char>) -> Option<Seq<char>> {
    byte_prefix(
        low,
        if utf8_len(low) < 8 {
            utf8_len(low)
        } else {
            8
        },
    )
}

/// `base-suffix`, with the UUID suffix of `id`.
pub open spec fn disambiguated(base: Seq<char>, id: Seq<char>) -> Option<Seq<char>> {
    match uuid_suffix(id) {
        Some(sfx) => Some(base + seq!['-'] + sfx),
        None => None,
    }
}

proof fn lemma_utf8_len_take(s: Seq<char>, i: int)
    requires
        0 <= i < s.len(),
    ensures
        utf8_len(s.take(i + 1)) == utf8_len(s.take(i)) + utf8_width(s[i]),
{
    assert(s.take(i + 1).drop_last() == s.take(i));
}

proof fn lemma_utf8_len_strict(s: Seq<char>, a: int, b: int)
    requires
        0 <= a < b <= s.len(),
    ensures
        utf8_len(s.take(a)) < utf8_len(s.take(b)),
    decreases b - a,
{
    lemma_utf8_len_take(s, b - 1);
    if a < b - 1 {
        lemma_utf8_len_strict(s, a, b - 1);
    }
}

proof fn lemma_byte_prefix_at(s: Seq<char>, n: nat, k: int)
    requires
        0 <= k <= s.len(),
        utf8_len(s.take(k)) == n,
    ensures
        byte_prefix(s, n) == Some(s.take(k)),
{
    let c = choose|j: int| 0 <= j <= s.len() && #[trigger] utf8_len(s.take(j)) == n;
    if c < k {
        lemma_utf8_len_strict(s, c, k);
    } else if c > k {
        lemma_utf8_len_strict(s, k, c);
    }
}

fn char_width(c: char) -> (r: usize)
    ensures
        r == utf8_width(c),
{
    let u = c as u32;
    if u < 0x80 {
        1
    } else if u < 0x800 {
        2
    } else if u < 0x10000 {
        3
    } else {
        4
    }
}

proof fn lemma_ascii_utf8_len(s: Seq<char>)
    requires
        is_ascii_text(s),
    ensures
        utf8_len(s) == s.len(),
    decreases s.len(),
{
    if s.len() > 0 {
        assert(is_ascii_text(s.drop_last())) by {
            assert forall|i: int| 0 <= i < s.drop_last().len() implies (#[trigger] s.drop_last()[i] as u32)
                < 128 by {
                assert(s.drop_last()[i] == s[i]);
            }
        }
        lemma_ascii_utf8_len(s.drop_last());
        assert((s[s.len() - 1] as u32) < 128);
    }
}

/// An ASCII text has its first 8 bytes (or all of them) at a character
/// boundary.
proof fn lemma_ascii_prefix(low: Seq<char>)
    requires
        is_ascii_text(low),
    ensures
        eight_byte_prefix_spec(low) is Some,
{
    lemma_ascii_utf8_len(low);
    let n: nat = if low.len() < 8 {
        low.len()
    } else {
        8
    };
    let t = low.take(n as int);
    assert(is_ascii_text(t)) by {
        assert forall|i: int| 0 <= i < t.len() implies (#[trigger] t[i] as u32) < 128 by {
            assert(t[i] == low[i]);
        }
    }
    lemma_ascii_utf8_len(t);
    lemma_byte_prefix_at(low, n, n as int);
}

proof fn lemma_ascii_remove_all(s: Seq<char>, c: char)
    requires
        is_ascii_text(s),
    ensures
        is_ascii_text(remove_all(s, c)),
    decreases s.len(),
{
    if s.len() > 0 {
        let t = s.drop_last();
        assert(is_ascii_text(t)) by {
            assert forall|i: int| 0 <= i < t.len() implies (#[trigger] t[i] as u32) < 128 by {
                assert(t[i] == s[i]);
            }
        }
        lemma_ascii_remove_all(t, c);
        let r = remove_all(s, c);
        assert((s[s.len() - 1] as u32) < 128);
        if s.last() != c {
            assert forall|i: int| 0 <= i < r.len() implies (#[trigger] r[i] as u32) < 128 by {
                if i < r.len() - 1 {
                    assert(r[i] == remove_all(t, c)[i]);
                }
            }
        }
    }
}

/// The UUID suffix of `id` (see `uuid_suffix`); `None` where cutting it
/// would split a character, which an ASCII UUID never does.
pub fn id_suffix(id: &str) -> (r: Option<String>)
    ensures
        opt_chars(r) == uuid_suffix(id@),
        is_ascii_text(id@) ==> r is Some,
{
    let mut stripped = String::new();
    for c in it: id.chars()
        invariant
            it.seq() == id@,
            stripped@ == remove_all(id@.take(it.index() as int), '-'),
    {
        proof {
            assert(id@.take(it.index() + 1).drop_last() == id@.take(it.index() as int));
        }
        if c != '-' {
            push_char(&mut stripped, c);
        }
    }
    proof {
        assert(id@.take(id@.len() as int) == id@);
    }
    let low = lowercase(stripped.as_str());
    proof {
        if is_ascii_text(id@) {
            lemma_ascii_remove_all(id@, '-');
            lemma_ascii_prefix(low@);
        }
    }
    eight_byte_prefix(low.as_str())
}

/// The first 8 bytes of `low` (see `eight_byte_prefix_spec`); `id_suffix`
/// hands it the UUID without `-`, as `str::to_lowercase` lowercases it.
pub fn eight_byte_prefix(low: &str) -> (r: Option<String>)
    ensures
        opt_chars(r) == eight_byte_prefix_spec(low@),
{
    let v = chars_of(low);
    let len = v.len();
    let mut total: usize = 0;
    let mut i: usize = 0;
    proof {
        assert(v@.take(0).len() == 0);
    }
    while i < len && total < 8
        invariant
            i <= len == v@.len(),
            total == utf8_len(v@.take(i as int)),
            total < 12,
        decreases len - i,
    {
        proof {
            lemma_utf8_len_take(v@, i as int);
        }
        total = total + char_width(v[i]);
        i = i + 1;
    }
    let n: usize = if total >= 8 {
        proof {
            if i < len {
                lemma_utf8_len_strict(v@, i as int, len as int);
            }
            assert(v@.take(len as int) == v@);
        }
        8
    } else {
        proof {
            assert(v@.take(len as int) == v@);
        }
        total
    };
    let mut acc: usize = 0;
    let mut k: usize = 0;
    while k < len && acc < n
        invariant
            k <= len == v@.len(),
            acc == utf8_len(v@.take(k as int)),
            v@ == low@,
            acc <= n <= 8,
            n == (if utf8_len(v@) < 8 {
                utf8_len(v@)
            } else {
                8
            }),
        decreases len - k,
    {
        proof {
            lemma_utf8_len_take(v@, k as int);
        }
        let w = char_width(v[k]);
        if acc + w > n {
            proof {
                assert forall|j: int| 0 <= j <= len implies #[trigger] utf8_len(v@.take(j)) != n by {
                    if j <= k {
                        if j < k {
                            lemma_utf8_len_strict(v@, j, k as int);
                        }
                    } else {
                        if j > k + 1 {
                            lemma_utf8_len_strict(v@, k + 1, j);
                        }
                    }
                }
                assert(byte_prefix(v@, n as nat) is None);
            }
            return None;
        }
        acc = acc + w;
        k = k + 1;
    }
    if acc == n {
        proof {
            lemma_byte_prefix_at(v@, n as nat, k as int);
            assert(v@.subrange(0, k as int) == v@.take(k as int));
        }
        Some(string_of(&v, 0, k))
    } else {
        proof {
            assert(k == len);
            assert(v@.take(len as int) == v@);
            assert forall|j: int| 0 <= j <= len implies #[trigger] utf8_len(v@.take(j)) != n by {
                if j < len {
                    lemma_utf8_len_strict(v@, j, len as int);
                }
            }
        }
        None
    }
}


/// Every UUID is ASCII text.
pub open spec fn ids_ascii(nodes: Seq<NodeFile>) -> bool {
    forall|i: int| 0 <= i < nodes.len() ==> is_ascii_text(#[trigger] nodes[i].id@)
}

/// The UUIDs of `nodes`, in order.
pub open spec fn node_ids(nodes: Seq<NodeFile>) -> Seq<Seq<char>> {
    nodes.map_values(|n: NodeFile| n.id@)
}

/// `nodes` in the order they are processed: sorted by UUID, nodes with equal
/// UUIDs in their given order.
pub open spec fn in_id_order(nodes: Seq<NodeFile>) -> Seq<NodeFile> {
    key_order(node_ids(nodes)).map_values(|i: int| nodes[i])
}

/// The characters of each string.
pub open spec fn texts(v: Seq<String>) -> Seq<Seq<char>> {
    v.map_values(|s: String| s@)
}

/// The base slugs met so far and the UUID → slug map, after `nodes` (in
/// processing order). A node whose base slug an earlier node already had
/// gets `base-suffix` (see `uuid_suffix`); `None` where that suffix cannot be
/// cut (cutting panics there).
pub open spec fn slug_table(nodes: Seq<NodeFile>) -> Option<
    (Seq<Seq<char>>, Map<Seq<char>, Seq<char>>),
>
    decreases nodes.len(),
{
    if nodes.len() == 0 {
        Some((Seq::empty(), Map::empty()))
    } else {
        match slug_table(nodes.drop_last()) {
            None => None,
            Some((seen, map)) => {
                let node = nodes.last();
                let base = slugify_spec(node.title@);
                let canonical = if seen.contains(base) {
                    disambiguated(base, node.id@)
                } else {
                    Some(base)
                };
                match canonical {
                    Some(c) => Some((seen.push(base), map.insert(node.id@, c))),
                    None => None,
                }
            },
        }
    }
}

/// The UUID → canonical slug map of `nodes`.
pub open spec fn canonical_slugs(nodes: Seq<NodeFile>) -> Option<Map<Seq<char>, Seq<char>>> {
    match slug_table(in_id_order(nodes)) {
        Some((_, map)) => Some(map),
        None => None,
    }
}

/// `map` with the slug of each of `aliases` leading to `id`, where that slug
/// is not a key yet (a key already there keeps its value).
pub open spec fn add_alias_keys(
    map: Map<Seq<char>, Seq<char>>,
    aliases: Seq<String>,
    id: Seq<char>,
) -> Map<Seq<char>, Seq<char>>
    decreases aliases.len(),
{
    if aliases.len() == 0 {
        map
    } else {
        let m = add_alias_keys(map, aliases.drop_last(), id);
        let a = slugify_spec(aliases.last()@);
        if m.dom().contains(a) {
            m
        } else {
            m.insert(a, id)
        }
    }
}

/// `map` with the alias slugs of `nodes` (in processing order) added by
/// `add_alias_keys`.
pub open spec fn with_alias_keys(nodes: Seq<NodeFile>, map: Map<Seq<char>, Seq<char>>) -> Map<
    Seq<char>,
    Seq<char>,
>
    decreases nodes.len(),
{
    if nodes.len() == 0 {
        map
    } else {
        add_alias_keys(with_alias_keys(nodes.drop_last(), map), nodes.last().aliases@, nodes.last().id@)
    }
}

/// The slug map of `nodes`: each UUID → its canonical slug, and each alias
/// slug that is not a UUID → the UUID of the first node (in processing
/// order) that has it.
pub open spec fn slug_map_spec(nodes: Seq<NodeFile>) -> Option<Map<Seq<char>, Seq<char>>> {
    match canonical_slugs(nodes) {
        Some(map) => Some(with_alias_keys(in_id_order(nodes), map)),
        None => None,
    }
}

/// The alias slugs met so far and the path → UUID map, after the aliases
/// `aliases` of the node `id`.
pub open spec fn alias_step(
    seen: Seq<Seq<char>>,
    map: Map<Seq<char>, Seq<char>>,
    aliases: Seq<String>,
    id: Seq<char>,
) -> Option<(Seq<Seq<char>>, Map<Seq<char>, Seq<char>>)>
    decreases aliases.len(),
{
    if aliases.len() == 0 {
        Some((seen, map))
    } else {
        match alias_step(seen, map, aliases.drop_last(), id) {
            None => None,
            Some((seen2, map2)) => {
                let a = slugify_spec(aliases.last()@);
                let resolved = if seen2.contains(a) {
                    disambiguated(a, id)
                } else {
                    Some(a)
                };
                match resolved {
                    Some(r) => Some((seen2.push(a), map2.insert(r, id))),
                    None => None,
                }
            },
        }
    }
}

/// The alias slugs met so far and the path → UUID map, after `nodes` (in
/// processing order): each node's canonical slug, its UUID and its alias
/// slugs lead to its UUID.
pub open spec fn alias_table(nodes: Seq<NodeFile>, slugs: Map<Seq<char>, Seq<char>>) -> Option<
    (Seq<Seq<char>>, Map<Seq<char>, Seq<char>>),
>
    decreases nodes.len(),
{
    if nodes.len() == 0 {
        Some((Seq::empty(), Map::empty()))
    } else {
        match alias_table(nodes.drop_last(), slugs) {
            None => None,
            Some((seen, map)) => {
                let node = nodes.last();
                let id = node.id@;
                let with_slug = if slugs.dom().contains(id) {
                    map.insert(slugs[id], id)
                } else {
                    map
                };
                alias_step(seen, with_slug.insert(id, id), node.aliases@, id)
            },
        }
    }
}

/// The path → UUID map of `nodes`.
pub open spec fn alias_map_spec(nodes: Seq<NodeFile>, slugs: Map<Seq<char>, Seq<char>>) -> Option<
    Map<Seq<char>, Seq<char>>,
> {
    match alias_table(in_id_order(nodes), slugs) {
        Some((_, map)) => Some(map),
        None => None,
    }
}

proof fn lemma_slug_table_none(nodes: Seq<NodeFile>, k: int)
    requires
        0 <= k <= nodes.len(),
        slug_table(nodes.take(k)) is None,
    ensures
        slug_table(nodes) is None,
    decreases nodes.len() - k,
{
    if k < nodes.len() {
        assert(nodes.take(k + 1).drop_last() == nodes.take(k));
        lemma_slug_table_none(nodes, k + 1);
    } else {
        assert(nodes.take(k) == nodes);
    }
}

proof fn lemma_alias_table_none(nodes: Seq<NodeFile>, slugs: Map<Seq<char>, Seq<char>>, k: int)
    requires
        0 <= k <= nodes.len(),
        alias_table(nodes.take(k), slugs) is None,
    ensures
        alias_table(nodes, slugs) is None,
    decreases nodes.len() - k,
{
    if k < nodes.len() {
        assert(nodes.take(k + 1).drop_last() == nodes.take(k));
        lemma_alias_table_none(nodes, slugs, k + 1);
    } else {
        assert(nodes.take(k) == nodes);
    }
}

fn seen_contains(seen: &Vec<String>, s: &String) -> (r: bool)
    ensures
        r == texts(seen@).contains(s@),
{
    let n = seen.len();
    let mut i: usize = 0;
    while i < n
        invariant
            i <= n == seen@.len(),
            forall|k: int| 0 <= k < i ==> #[trigger] seen@[k]@ != s@,
        decreases n - i,
    {
        if seen[i] == *s {
            proof {
                assert(texts(seen@)[i as int] == s@);
            }
            return true;
        }
        i = i + 1;
    }
    proof {
        if texts(seen@).contains(s@) {
            let k = choose|k: int| 0 <= k < n && texts(seen@)[k] == s@;
            assert(seen@[k]@ == s@);
        }
    }
    false
}

/// The order in which `nodes` are processed, as indices.
pub(crate) fn processing_order(nodes: &[NodeFile]) -> (r: Vec<usize>)
    ensures
        r@.len() == nodes@.len(),
        forall|k: int| 0 <= k < r@.len() ==> #[trigger] r@[k] < nodes@.len(),
        forall|k: int|
            0 <= k < r@.len() ==> in_id_order(nodes@)[k] == nodes@[#[trigger] r@[k] as int],
        in_id_order(nodes@).len() == nodes@.len(),
{
    let mut keys: Vec<Vec<char>> = Vec::new();
    let n = nodes.len();
    let mut i: usize = 0;
    while i < n
        invariant
            i <= n == nodes@.len(),
            keys@.len() == i,
            forall|k: int| 0 <= k < i ==> (#[trigger] keys@[k])@ == nodes@[k].id@,
        decreases n - i,
    {
        keys.push(chars_of(nodes[i].id.as_str()));
        i = i + 1;
    }
    proof {
        assert(keys@.map_values(|v: Vec<char>| v@) == node_ids(nodes@));
    }
    let order = key_sorted_indices(&keys);
    proof {
        assert forall|k: int| 0 <= k < order@.len() implies in_id_order(nodes@)[k]
            == nodes@[#[trigger] order@[k] as int] by {
            assert(order@.map_values(|u: usize| u as int)[k] == order@[k] as int);
        }
    }
    order
}

/// The slug map of `nodes` (see `slug_map_spec`), or `None` where building
/// it panics (a colliding slug whose UUID suffix would be cut inside a
/// character, which cannot happen where every UUID is ASCII).
pub fn try_build_slug_map(nodes: &[NodeFile]) -> (r: Option<SlugMap>)
    ensures
        match r {
            Some(m) => slug_map_spec(nodes@) == Some(m@),
            None => slug_map_spec(nodes@) is None,
        },
        ids_ascii(nodes@) ==> r is Some,
{
    let order = processing_order(nodes);
    let ghost sorted = in_id_order(nodes@);
    let mut seen: Vec<String> = Vec::new();
    let mut map = SlugMap::new();
    let n = order.len();
    let mut k: usize = 0;
    proof {
        assert(sorted.take(0) == Seq::<NodeFile>::empty());
        assert(texts(seen@) == Seq::<Seq<char>>::empty());
    }
    while k < n
        invariant
            k <= n == order@.len() == sorted.len(),
            sorted == in_id_order(nodes@),
            forall|j: int| 0 <= j < order@.len() ==> #[trigger] order@[j] < nodes@.len(),
            forall|j: int| 0 <= j < order@.len() ==> sorted[j] == nodes@[#[trigger] order@[j] as int],
            slug_table(sorted.take(k as int)) == Some((texts(seen@), map@)),
        decreases n - k,
    {
        let node = &nodes[order[k]];
        proof {
            assert(sorted.take(k + 1).drop_last() == sorted.take(k as int));
            assert(sorted.take(k + 1).last() == *node);
        }
        let base = slugify(node.title.as_str());
        let canonical = if seen_contains(&seen, &base) {
            match id_suffix(node.id.as_str()) {
                Some(sfx) => {
                    let mut c = base.clone();
                    push_char(&mut c, '-');
                    c.append(sfx.as_str());
                    c
                },
                None => {
                    proof {
                        lemma_slug_table_none(sorted, k + 1);
                    }
                    return None;
                },
            }
        } else {
            base.clone()
        };
        proof {
            let t = slug_table(sorted.take(k as int)).unwrap();
            assert(t.0.contains(base@) == texts(seen@).contains(base@));
            if t.0.contains(base@) {
                assert(disambiguated(base@, node.id@) == Some(canonical@));
            } else {
                assert(canonical@ == base@);
            }
        }
        let ghost old_seen = seen@;
        seen.push(base);
        map.insert(node.id.clone(), canonical);
        proof {
            assert(texts(seen@) == texts(old_seen).push(seen@.last()@));
        }
        k = k + 1;
    }
    proof {
        assert(sorted.take(n as int) == sorted);
    }
    let ghost canonical = map@;
    let mut k: usize = 0;
    proof {
        assert(sorted.take(0) == Seq::<NodeFile>::empty());
    }
    while k < n
        invariant
            k <= n == order@.len() == sorted.len(),
            sorted == in_id_order(nodes@),
            canonical_slugs(nodes@) == Some(canonical),
            forall|j: int| 0 <= j < order@.len() ==> #[trigger] order@[j] < nodes@.len(),
            forall|j: int| 0 <= j < order@.len() ==> sorted[j] == nodes@[#[trigger] order@[j] as int],
            map@ == with_alias_keys(sorted.take(k as int), canonical),
        decreases n - k,
    {
        let node = &nodes[order[k]];
        proof {
            assert(sorted.take(k + 1).drop_last() == sorted.take(k as int));
            assert(sorted.take(k + 1).last() == *node);
        }
        add_alias_slugs(&mut map, &node.aliases, &node.id);
        k = k + 1;
    }
    proof {
        assert(sorted.take(n as int) == sorted);
    }
    Some(map)
}

/// Adds the alias slugs of the node `id` to `map` (see `add_alias_keys`).
fn add_alias_slugs(map: &mut SlugMap, aliases: &Vec<String>, id: &String)
    ensures
        final(map)@ == add_alias_keys(old(map)@, aliases@, id@),
{
    let ghost start = map@;
    let n = aliases.len();
    let mut i: usize = 0;
    proof {
        assert(aliases@.take(0) == Seq::<String>::empty());
    }
    while i < n
        invariant
            i <= n == aliases@.len(),
            start == old(map)@,
            map@ == add_alias_keys(start, aliases@.take(i as int), id@),
        decreases n - i,
    {
        proof {
            assert(aliases@.take(i + 1).drop_last() == aliases@.take(i as int));
        }
        let a = slugify(aliases[i].as_str());
        if !map.contains_key(a.as_str()) {
            map.insert(a, id.clone());
        }
        i = i + 1;
    }
    proof {
        assert(aliases@.take(n as int) == aliases@);
    }
}

/// Build a slug map from all nodes.
/// Maps:
///   UUID -> canonical slug (derived from title)
///   alias slugs -> UUID (an alias slug that is also a UUID keeps that
///     UUID's canonical slug; of two nodes with one alias slug, the first
///     in UUID order has it)
/// A UUID key always leads to the canonical slug; the UUID -> UUID paths
/// for direct UUID URLs are in the alias map (`build_alias_map`).
///
/// Collision handling: if two titles produce the same slug,
/// the second gets <slug>-<first-8-chars-of-uuid>.
/// Deterministic: nodes sorted by UUID before processing.
/// Building it cannot fail where every UUID is ASCII.
pub fn build_slug_map(nodes: &[NodeFile]) -> (r: SlugMap)
    requires
        slug_map_spec(nodes@) is Some || ids_ascii(nodes@),
    ensures
        slug_map_spec(nodes@) == Some(r@),
{
    match try_build_slug_map(nodes) {
        Some(m) => m,
        None => {
            proof {
                assert(false);
            }
            SlugMap::new()
        },
    }
}


proof fn lemma_alias_step_none(
    seen: Seq<Seq<char>>,
    map: Map<Seq<char>, Seq<char>>,
    aliases: Seq<String>,
    id: Seq<char>,
    k: int,
)
    requires
        0 <= k <= aliases.len(),
        alias_step(seen, map, aliases.take(k), id) is None,
    ensures
        alias_step(seen, map, aliases, id) is None,
    decreases aliases.len() - k,
{
    if k < aliases.len() {
        assert(aliases.take(k + 1).drop_last() == aliases.take(k));
        lemma_alias_step_none(seen, map, aliases, id, k + 1);
    } else {
        assert(aliases.take(k) == aliases);
    }
}

/// Adds the alias slugs of the node `id` to `seen` and `map`; `false` where
/// a colliding alias slug's UUID suffix cannot be cut.
fn add_aliases(
    seen: &mut Vec<String>,
    map: &mut SlugMap,
    aliases: &Vec<String>,
    id: &String,
) -> (ok: bool)
    ensures
        ok ==> alias_step(texts(old(seen)@), old(map)@, aliases@, id@) == Some(
            (texts(final(seen)@), final(map)@),
        ),
        !ok ==> alias_step(texts(old(seen)@), old(map)@, aliases@, id@) is None,
        is_ascii_text(id@) ==> ok,
{
    let ghost seen0 = texts(seen@);
    let ghost map0 = map@;
    let n = aliases.len();
    let mut i: usize = 0;
    proof {
        assert(aliases@.take(0) == Seq::<String>::empty());
    }
    while i < n
        invariant
            i <= n == aliases@.len(),
            seen0 == texts(old(seen)@),
            map0 == old(map)@,
            alias_step(seen0, map0, aliases@.take(i as int), id@) == Some((texts(seen@), map@)),
        decreases n - i,
    {
        proof {
            assert(aliases@.take(i + 1).drop_last() == aliases@.take(i as int));
        }
        let alias_slug = slugify(aliases[i].as_str());
        let resolved = if seen_contains(seen, &alias_slug) {
            match id_suffix(id.as_str()) {
                Some(sfx) => {
                    let mut c = alias_slug.clone();
                    push_char(&mut c, '-');
                    c.append(sfx.as_str());
                    c
                },
                None => {
                    proof {
                        lemma_alias_step_none(seen0, map0, aliases@, id@, i + 1);
                    }
                    return false;
                },
            }
        } else {
            alias_slug.clone()
        };
        proof {
            let t = alias_step(seen0, map0, aliases@.take(i as int), id@).unwrap();
            assert(t.0.contains(alias_slug@) == texts(seen@).contains(alias_slug@));
            if t.0.contains(alias_slug@) {
                assert(disambiguated(alias_slug@, id@) == Some(resolved@));
            } else {
                assert(resolved@ == alias_slug@);
            }
        }
        let ghost old_seen = seen@;
        seen.push(alias_slug);
        map.insert(resolved, id.clone());
        proof {
            assert(texts(seen@) == texts(old_seen).push(seen@.last()@));
        }
        i = i + 1;
    }
    proof {
        assert(aliases@.take(n as int) == aliases@);
    }
    true
}

/// The path → UUID map of `nodes`, or `None` where building it panics (a
/// colliding alias slug whose UUID suffix would be cut inside a character,
/// which cannot happen where every UUID is ASCII).
pub fn try_build_alias_map(nodes: &[NodeFile], slug_map: &SlugMap) -> (r: Option<SlugMap>)
    ensures
        match r {
            Some(m) => alias_map_spec(nodes@, slug_map@) == Some(m@),
            None => alias_map_spec(nodes@, slug_map@) is None,
        },
        ids_ascii(nodes@) ==> r is Some,
{
    let order = processing_order(nodes);
    let ghost sorted = in_id_order(nodes@);
    let mut seen: Vec<String> = Vec::new();
    let mut map = SlugMap::new();
    let n = order.len();
    let mut k: usize = 0;
    proof {
        assert(sorted.take(0) == Seq::<NodeFile>::empty());
        assert(texts(seen@) == Seq::<Seq<char>>::empty());
    }
    while k < n
        invariant
            k <= n == order@.len() == sorted.len(),
            sorted == in_id_order(nodes@),
            forall|j: int| 0 <= j < order@.len() ==> #[trigger] order@[j] < nodes@.len(),
            forall|j: int| 0 <= j < order@.len() ==> sorted[j] == nodes@[#[trigger] order@[j] as int],
            alias_table(sorted.take(k as int), slug_map@) == Some((texts(seen@), map@)),
        decreases n - k,
    {
        let node = &nodes[order[k]];
        proof {
            assert(sorted.take(k + 1).drop_last() == sorted.take(k as int));
            assert(sorted.take(k + 1).last() == *node);
        }
        if let Some(canonical) = slug_map.get(node.id.as_str()) {
            map.insert(canonical.clone(), node.id.clone());
        }
        map.insert(node.id.clone(), node.id.clone());
        if !add_aliases(&mut seen, &mut map, &node.aliases, &node.id) {
            proof {
                lemma_alias_table_none(sorted, slug_map@, k + 1);
            }
            return None;
        }
        k = k + 1;
    }
    proof {
        assert(sorted.take(n as int) == sorted);
    }
    Some(map)
}

/// Build a full alias resolution map: all slugs (title, aliases, UUID) -> UUID.
/// Used by Astro's getStaticPaths to generate all URL paths per node.
/// Building it cannot fail where every UUID is ASCII.
pub fn build_alias_map(nodes: &[NodeFile], slug_map: &SlugMap) -> (r: SlugMap)
    requires
        alias_map_spec(nodes@, slug_map@) is Some || ids_ascii(nodes@),
    ensures
        alias_map_spec(nodes@, slug_map@) == Some(r@),
{
    match try_build_alias_map(nodes, slug_map) {
        Some(m) => m,
        None => {
            proof {
                assert(false);
            }
            SlugMap::new()
        },
    }
}


/// The UUIDs of the nodes, as a set.
pub open spec fn id_set(nodes: Seq<NodeFile>) -> Set<Seq<char>> {
    Set::new(|id: Seq<char>| exists|i: int| 0 <= i < nodes.len() && #[trigger] nodes[i].id@ == id)
}

/// No two nodes share a UUID.
pub open spec fn distinct_ids(nodes: Seq<NodeFile>) -> bool {
    forall|i: int, j: int|
        0 <= i < j < nodes.len() ==> #[trigger] nodes[i].id@ != #[trigger] nodes[j].id@
}

/// The nodes of `a` and `b` are the same (as sets).
pub open spec fn same_nodes(a: Seq<NodeFile>, b: Seq<NodeFile>) -> bool {
    forall|x: NodeFile| a.contains(x) <==> b.contains(x)
}

/// Each node comes before the next in UUID order.
pub open spec fn ids_increasing(s: Seq<NodeFile>) -> bool {
    forall|i: int, j: int| 0 <= i < j < s.len() ==> text_less(#[trigger] s[i].id@, #[trigger] s[j].id@)
}

/// The processing order holds the given nodes, sorted by UUID, nodes with
/// equal UUIDs in their given order.
pub proof fn law_processing_order(nodes: Seq<NodeFile>)
    ensures
        in_id_order(nodes).len() == nodes.len(),
        same_nodes(in_id_order(nodes), nodes),
        forall|i: int, j: int|
            0 <= i < j < nodes.len() ==> text_le(
                #[trigger] in_id_order(nodes)[i].id@,
                #[trigger] in_id_order(nodes)[j].id@,
            ),
        distinct_ids(nodes) ==> ids_increasing(in_id_order(nodes)),
{
    let keys = node_ids(nodes);
    law_key_order(keys);
    let o = key_order(keys);
    let s = in_id_order(nodes);
    assert forall|x: NodeFile| s.contains(x) <==> nodes.contains(x) by {
        if s.contains(x) {
            let k = choose|k: int| 0 <= k < s.len() && s[k] == x;
            assert(nodes[o[k]] == x);
        }
        if nodes.contains(x) {
            let i = choose|i: int| 0 <= i < nodes.len() && nodes[i] == x;
            assert(o.contains(i));
            let k = choose|k: int| 0 <= k < o.len() && o[k] == i;
            assert(s[k] == x);
        }
    }
    assert forall|i: int, j: int| 0 <= i < j < nodes.len() implies text_le(
        #[trigger] s[i].id@,
        #[trigger] s[j].id@,
    ) by {
        assert(text_le(keys[o[i]], keys[o[j]]));
    }
    if distinct_ids(nodes) {
        assert forall|i: int, j: int| 0 <= i < j < s.len() implies text_less(
            #[trigger] s[i].id@,
            #[trigger] s[j].id@,
        ) by {
            assert(text_le(keys[o[i]], keys[o[j]]));
            assert(o[i] != o[j]);
            if o[i] < o[j] {
                assert(nodes[o[i]].id@ != nodes[o[j]].id@);
            } else {
                assert(nodes[o[j]].id@ != nodes[o[i]].id@);
            }
            lemma_less_total(s[i].id@, s[j].id@);
        }
    }
}

proof fn lemma_increasing_unique(a: Seq<NodeFile>, b: Seq<NodeFile>)
    requires
        ids_increasing(a),
        ids_increasing(b),
        same_nodes(a, b),
    ensures
        a == b,
{
    let key = |n: NodeFile| n.id@;
    assert(sorted_by_key(a, key));
    assert(sorted_by_key(b, key));
    lemma_sorted_unique(a, b, key);
}

/// Deterministic: where no two nodes share a UUID, the slug map and the
/// alias map depend only on which nodes there are, not on their order.
pub proof fn law_tables_order_independent(
    nodes1: Seq<NodeFile>,
    nodes2: Seq<NodeFile>,
    slugs: Map<Seq<char>, Seq<char>>,
)
    requires
        distinct_ids(nodes1),
        distinct_ids(nodes2),
        same_nodes(nodes1, nodes2),
    ensures
        in_id_order(nodes1) == in_id_order(nodes2),
        slug_map_spec(nodes1) == slug_map_spec(nodes2),
        alias_map_spec(nodes1, slugs) == alias_map_spec(nodes2, slugs),
{
    law_processing_order(nodes1);
    law_processing_order(nodes2);
    let a = in_id_order(nodes1);
    let b = in_id_order(nodes2);
    assert forall|x: NodeFile| a.contains(x) <==> b.contains(x) by {
        assert(a.contains(x) <==> nodes1.contains(x));
        assert(b.contains(x) <==> nodes2.contains(x));
    }
    lemma_increasing_unique(a, b);
}

proof fn lemma_slug_table_domain(nodes: Seq<NodeFile>)
    ensures
        slug_table(nodes) matches Some((_, map)) ==> map.dom() == id_set(nodes),
    decreases nodes.len(),
{
    if nodes.len() > 0 {
        let t = nodes.drop_last();
        lemma_slug_table_domain(t);
        if let Some((_, map)) = slug_table(nodes) {
            let (_, m0) = slug_table(t).unwrap();
            assert forall|id: Seq<char>| map.dom().contains(id) <==> id_set(nodes).contains(id) by {
                if id_set(t).contains(id) {
                    let i = choose|i: int| 0 <= i < t.len() && #[trigger] t[i].id@ == id;
                    assert(nodes[i].id@ == id);
                }
                if id_set(nodes).contains(id) {
                    let i = choose|i: int| 0 <= i < nodes.len() && #[trigger] nodes[i].id@ == id;
                    if i < nodes.len() - 1 {
                        assert(t[i].id@ == id);
                    }
                }
            }
            assert(map.dom() =~= id_set(nodes));
        }
    }
}

/// The alias slugs of the nodes, as a set.
pub open spec fn alias_slug_set(nodes: Seq<NodeFile>) -> Set<Seq<char>> {
    Set::new(
        |k: Seq<char>|
            exists|i: int, p: int|
                0 <= i < nodes.len() && 0 <= p < nodes[i].aliases@.len() && #[trigger] alias_slugs(
                    nodes[i].aliases@,
                )[p] == k,
    )
}

/// Some node has the UUID `id` and the alias slug `k`.
pub open spec fn alias_of_node(nodes: Seq<NodeFile>, k: Seq<char>, id: Seq<char>) -> bool {
    exists|i: int| 0 <= i < nodes.len() && #[trigger] nodes[i].id@ == id && alias_slugs(nodes[i].aliases@).contains(k)
}

proof fn lemma_add_alias_keys(map: Map<Seq<char>, Seq<char>>, aliases: Seq<String>, id: Seq<char>)
    ensures
        forall|k: Seq<char>|
            #[trigger] add_alias_keys(map, aliases, id).dom().contains(k) <==> (map.dom().contains(k)
                || alias_slugs(aliases).contains(k)),
        forall|k: Seq<char>|
            map.dom().contains(k) ==> #[trigger] add_alias_keys(map, aliases, id)[k] == map[k],
        forall|k: Seq<char>|
            #[trigger] add_alias_keys(map, aliases, id).dom().contains(k) && !map.dom().contains(k)
                ==> add_alias_keys(map, aliases, id)[k] == id && alias_slugs(aliases).contains(k),
    decreases aliases.len(),
{
    if aliases.len() > 0 {
        let t = aliases.drop_last();
        lemma_add_alias_keys(map, t, id);
        let als = alias_slugs(aliases);
        let at = alias_slugs(t);
        assert(at =~= als.drop_last());
        let a = slugify_spec(aliases.last()@);
        assert(als[als.len() - 1] == a);
        assert forall|k: Seq<char>| at.contains(k) implies als.contains(k) by {
            let x = choose|x: int| 0 <= x < at.len() && at[x] == k;
            assert(als[x] == k);
        }
        assert forall|k: Seq<char>| als.contains(k) && k != a implies at.contains(k) by {
            let x = choose|x: int| 0 <= x < als.len() && als[x] == k;
            assert(at[x] == k);
        }
        let m = add_alias_keys(map, t, id);
        let r = add_alias_keys(map, aliases, id);
        assert(r == (if m.dom().contains(a) {
            m
        } else {
            m.insert(a, id)
        }));
        assert(als.contains(a));
        assert forall|k: Seq<char>| #[trigger] r.dom().contains(k) <==> (map.dom().contains(k)
            || als.contains(k)) by {
            if k != a {
                assert(r.dom().contains(k) == m.dom().contains(k));
            }
        }
        assert forall|k: Seq<char>| map.dom().contains(k) implies #[trigger] r[k] == map[k] by {
            assert(m.dom().contains(k));
        }
        assert forall|k: Seq<char>| #[trigger] r.dom().contains(k) && !map.dom().contains(k) implies r[k]
            == id && als.contains(k) by {
            if m.dom().contains(k) {
                assert(m[k] == id && at.contains(k));
            }
        }
    } else {
        assert forall|k: Seq<char>| !alias_slugs(aliases).contains(k) by {}
    }
}

proof fn lemma_with_alias_keys(nodes: Seq<NodeFile>, map: Map<Seq<char>, Seq<char>>)
    ensures
        forall|k: Seq<char>|
            #[trigger] with_alias_keys(nodes, map).dom().contains(k) <==> (map.dom().contains(k)
                || alias_slug_set(nodes).contains(k)),
        forall|k: Seq<char>|
            map.dom().contains(k) ==> #[trigger] with_alias_keys(nodes, map)[k] == map[k],
        forall|k: Seq<char>|
            #[trigger] with_alias_keys(nodes, map).dom().contains(k) && !map.dom().contains(k)
                ==> alias_of_node(nodes, k, with_alias_keys(nodes, map)[k]),
    decreases nodes.len(),
{
    if nodes.len() > 0 {
        let t = nodes.drop_last();
        let n = nodes.len() - 1;
        lemma_with_alias_keys(t, map);
        let m = with_alias_keys(t, map);
        let node = nodes.last();
        lemma_add_alias_keys(m, node.aliases@, node.id@);
        let r = with_alias_keys(nodes, map);
        assert forall|k: Seq<char>| alias_slug_set(nodes).contains(k) <==> (alias_slug_set(t).contains(
            k,
        ) || alias_slugs(node.aliases@).contains(k)) by {
            if alias_slug_set(nodes).contains(k) {
                let (i, p) = choose|i: int, p: int|
                    0 <= i < nodes.len() && 0 <= p < nodes[i].aliases@.len() && #[trigger] alias_slugs(
                        nodes[i].aliases@,
                    )[p] == k;
                if i < n {
                    assert(t[i] == nodes[i]);
                    assert(alias_slugs(t[i].aliases@)[p] == k);
                } else {
                    assert(alias_slugs(node.aliases@)[p] == k);
                }
            }
            if alias_slug_set(t).contains(k) {
                let (i, p) = choose|i: int, p: int|
                    0 <= i < t.len() && 0 <= p < t[i].aliases@.len() && #[trigger] alias_slugs(
                        t[i].aliases@,
                    )[p] == k;
                assert(t[i] == nodes[i]);
                assert(alias_slugs(nodes[i].aliases@)[p] == k);
            }
            if alias_slugs(node.aliases@).contains(k) {
                let p = choose|p: int| 0 <= p < alias_slugs(node.aliases@).len() && alias_slugs(
                    node.aliases@,
                )[p] == k;
                assert(nodes[n] == node);
                assert(alias_slugs(nodes[n].aliases@)[p] == k);
            }
        }
        assert forall|k: Seq<char>| #[trigger] r.dom().contains(k) && !map.dom().contains(k) implies alias_of_node(
            nodes,
            k,
            r[k],
        ) by {
            if m.dom().contains(k) {
                assert(alias_of_node(t, k, m[k]));
                let i = choose|i: int| 0 <= i < t.len() && #[trigger] t[i].id@ == m[k] && alias_slugs(t[i].aliases@).contains(k);
                assert(t[i] == nodes[i]);
                assert(nodes[i].id@ == r[k]);
            } else {
                assert(nodes[n] == node);
                assert(nodes[n].id@ == r[k]);
            }
        }
    }
}

/// Every node's UUID has a canonical slug, and nothing else has.
pub proof fn law_canonical_slugs_domain(nodes: Seq<NodeFile>)
    ensures
        canonical_slugs(nodes) matches Some(map) ==> map.dom() == id_set(nodes),
{
    law_processing_order(nodes);
    let s = in_id_order(nodes);
    lemma_slug_table_domain(s);
    lemma_same_id_set(nodes);
}

proof fn lemma_same_id_set(nodes: Seq<NodeFile>)
    ensures
        id_set(in_id_order(nodes)) == id_set(nodes),
        alias_slug_set(in_id_order(nodes)) == alias_slug_set(nodes),
        forall|k: Seq<char>, id: Seq<char>|
            #[trigger] alias_of_node(in_id_order(nodes), k, id) ==> alias_of_node(nodes, k, id),
{
    law_processing_order(nodes);
    let s = in_id_order(nodes);
    assert forall|id: Seq<char>| id_set(s).contains(id) <==> id_set(nodes).contains(id) by {
        if id_set(s).contains(id) {
            let i = choose|i: int| 0 <= i < s.len() && #[trigger] s[i].id@ == id;
            assert(s.contains(s[i]));
            assert(nodes.contains(s[i]));
            let j = choose|j: int| 0 <= j < nodes.len() && nodes[j] == s[i];
            assert(nodes[j].id@ == id);
        }
        if id_set(nodes).contains(id) {
            let i = choose|i: int| 0 <= i < nodes.len() && #[trigger] nodes[i].id@ == id;
            assert(nodes.contains(nodes[i]));
            assert(s.contains(nodes[i]));
            let j = choose|j: int| 0 <= j < s.len() && s[j] == nodes[i];
            assert(s[j].id@ == id);
        }
    }
    assert(id_set(s) =~= id_set(nodes));
    assert forall|k: Seq<char>| alias_slug_set(s).contains(k) <==> alias_slug_set(nodes).contains(k) by {
        if alias_slug_set(s).contains(k) {
            let (i, p) = choose|i: int, p: int|
                0 <= i < s.len() && 0 <= p < s[i].aliases@.len() && #[trigger] alias_slugs(
                    s[i].aliases@,
                )[p] == k;
            assert(s.contains(s[i]));
            assert(nodes.contains(s[i]));
            let j = choose|j: int| 0 <= j < nodes.len() && nodes[j] == s[i];
            assert(alias_slugs(nodes[j].aliases@)[p] == k);
        }
        if alias_slug_set(nodes).contains(k) {
            let (i, p) = choose|i: int, p: int|
                0 <= i < nodes.len() && 0 <= p < nodes[i].aliases@.len() && #[trigger] alias_slugs(
                    nodes[i].aliases@,
                )[p] == k;
            assert(nodes.contains(nodes[i]));
            assert(s.contains(nodes[i]));
            let j = choose|j: int| 0 <= j < s.len() && s[j] == nodes[i];
            assert(alias_slugs(s[j].aliases@)[p] == k);
        }
    }
    assert(alias_slug_set(s) =~= alias_slug_set(nodes));
    assert forall|k: Seq<char>, id: Seq<char>| #[trigger] alias_of_node(s, k, id) implies alias_of_node(
        nodes,
        k,
        id,
    ) by {
        let i = choose|i: int| 0 <= i < s.len() && #[trigger] s[i].id@ == id && alias_slugs(s[i].aliases@).contains(k);
        assert(s.contains(s[i]));
        assert(nodes.contains(s[i]));
        let j = choose|j: int| 0 <= j < nodes.len() && nodes[j] == s[i];
        assert(nodes[j].id@ == id);
    }
}

/// The slug map holds each UUID and each alias slug, and nothing else. A
/// UUID leads to its canonical slug; an alias slug that is not a UUID leads
/// to the UUID of a node that has that alias slug.
pub proof fn law_slug_map_domain(nodes: Seq<NodeFile>)
    ensures
        slug_map_spec(nodes) matches Some(map) ==> {
            &&& forall|k: Seq<char>|
                #[trigger] map.dom().contains(k) <==> (id_set(nodes).contains(k) || alias_slug_set(
                    nodes,
                ).contains(k))
            &&& forall|k: Seq<char>|
                #[trigger] id_set(nodes).contains(k) ==> map[k] == canonical_slugs(nodes).unwrap()[k]
            &&& forall|k: Seq<char>|
                #[trigger] map.dom().contains(k) && !id_set(nodes).contains(k) ==> alias_of_node(
                    nodes,
                    k,
                    map[k],
                )
        },
{
    law_canonical_slugs_domain(nodes);
    lemma_same_id_set(nodes);
    if let Some(c) = canonical_slugs(nodes) {
        lemma_with_alias_keys(in_id_order(nodes), c);
    }
}

/// Every path in a map leads to the given UUID or to one of `ids`.
pub open spec fn leads_to_ids(map: Map<Seq<char>, Seq<char>>, ids: Set<Seq<char>>) -> bool {
    forall|k: Seq<char>| #[trigger] map.dom().contains(k) ==> ids.contains(map[k])
}

proof fn lemma_alias_step_values(
    seen: Seq<Seq<char>>,
    map: Map<Seq<char>, Seq<char>>,
    aliases: Seq<String>,
    id: Seq<char>,
    ids: Set<Seq<char>>,
)
    requires
        leads_to_ids(map, ids),
        ids.contains(id),
    ensures
        alias_step(seen, map, aliases, id) matches Some((_, m)) ==> leads_to_ids(m, ids),
    decreases aliases.len(),
{
    if aliases.len() > 0 {
        lemma_alias_step_values(seen, map, aliases.drop_last(), id, ids);
    }
}

proof fn lemma_alias_table_values(nodes: Seq<NodeFile>, slugs: Map<Seq<char>, Seq<char>>)
    ensures
        alias_table(nodes, slugs) matches Some((_, m)) ==> leads_to_ids(m, id_set(nodes)),
    decreases nodes.len(),
{
    if nodes.len() > 0 {
        let t = nodes.drop_last();
        lemma_alias_table_values(t, slugs);
        if let Some((seen, map)) = alias_table(t, slugs) {
            let node = nodes.last();
            let id = node.id@;
            assert(id_set(nodes).contains(id)) by {
                assert(nodes[nodes.len() - 1].id@ == id);
            }
            assert forall|k: Seq<char>| #[trigger] map.dom().contains(k) implies id_set(
                nodes,
            ).contains(map[k]) by {
                assert(id_set(t).contains(map[k]));
                let i = choose|i: int| 0 <= i < t.len() && #[trigger] t[i].id@ == map[k];
                assert(nodes[i].id@ == map[k]);
            }
            let with_slug = if slugs.dom().contains(id) {
                map.insert(slugs[id], id)
            } else {
                map
            };
            lemma_alias_step_values(
                seen,
                with_slug.insert(id, id),
                node.aliases@,
                id,
                id_set(nodes),
            );
        }
    }
}

/// Every path in the alias map leads to the UUID of one of the nodes.
pub proof fn law_alias_map_values(nodes: Seq<NodeFile>, slugs: Map<Seq<char>, Seq<char>>)
    ensures
        alias_map_spec(nodes, slugs) matches Some(m) ==> leads_to_ids(m, id_set(nodes)),
{
    law_processing_order(nodes);
    let s = in_id_order(nodes);
    lemma_alias_table_values(s, slugs);
    if let Some(m) = alias_map_spec(nodes, slugs) {
        assert forall|k: Seq<char>| #[trigger] m.dom().contains(k) implies id_set(nodes).contains(
            m[k],
        ) by {
            let i = choose|i: int| 0 <= i < s.len() && #[trigger] s[i].id@ == m[k];
            assert(s.contains(s[i]));
            assert(nodes.contains(s[i]));
            let j = choose|j: int| 0 <= j < nodes.len() && nodes[j] == s[i];
            assert(nodes[j].id@ == m[k]);
        }
    }
}

} // verus!

verus! {

/// The slugs of a node's aliases, in order.
pub open spec fn alias_slugs(aliases: Seq<String>) -> Seq<Seq<char>> {
    aliases.map_values(|a: String| slugify_spec(a@))
}

/// The paths of a node that are not aliases: its canonical slug (where the
/// slug map has one), then its UUID.
pub open spec fn own_paths(n: NodeFile, slugs: Map<Seq<char>, Seq<char>>) -> Seq<Seq<char>> {
    if slugs.dom().contains(n.id@) {
        seq![slugs[n.id@], n.id@]
    } else {
        seq![n.id@]
    }
}

/// The URL paths of a node: its canonical slug (where the slug map has
/// one), its UUID and the slug of each alias.
pub open spec fn node_paths(n: NodeFile, slugs: Map<Seq<char>, Seq<char>>) -> Seq<Seq<char>> {
    own_paths(n, slugs) + alias_slugs(n.aliases@)
}

/// `k` is a path of one of the nodes.
pub open spec fn is_path_of(nodes: Seq<NodeFile>, slugs: Map<Seq<char>, Seq<char>>, k: Seq<char>) -> bool {
    exists|i: int, p: int|
        0 <= i < nodes.len() && 0 <= p < node_paths(nodes[i], slugs).len() && #[trigger] node_paths(
            nodes[i],
            slugs,
        )[p] == k
}

/// No two paths are the same, whether of one node or of two.
pub open spec fn paths_distinct(nodes: Seq<NodeFile>, slugs: Map<Seq<char>, Seq<char>>) -> bool {
    forall|i: int, j: int, p: int, q: int|
        0 <= i < nodes.len() && 0 <= j < nodes.len() && 0 <= p < node_paths(nodes[i], slugs).len()
            && 0 <= q < node_paths(nodes[j], slugs).len() && (i != j || p != q) ==> #[trigger] node_paths(
            nodes[i],
            slugs,
        )[p] != #[trigger] node_paths(nodes[j], slugs)[q]
}

proof fn lemma_alias_step_fresh(
    seen: Seq<Seq<char>>,
    map: Map<Seq<char>, Seq<char>>,
    aliases: Seq<String>,
    id: Seq<char>,
)
    requires
        forall|p: int, q: int|
            0 <= p < q < aliases.len() ==> #[trigger] alias_slugs(aliases)[p] != #[trigger] alias_slugs(
                aliases,
            )[q],
        forall|p: int| 0 <= p < aliases.len() ==> !seen.contains(#[trigger] alias_slugs(aliases)[p]),
    ensures
        alias_step(seen, map, aliases, id) is Some,
        alias_step(seen, map, aliases, id).unwrap().0 == seen + alias_slugs(aliases),
        forall|p: int|
            0 <= p < aliases.len() ==> alias_step(seen, map, aliases, id).unwrap().1.dom().contains(
                #[trigger] alias_slugs(aliases)[p],
            ) && alias_step(seen, map, aliases, id).unwrap().1[alias_slugs(aliases)[p]] == id,
        forall|k: Seq<char>|
            map.dom().contains(k) ==> #[trigger] alias_step(seen, map, aliases, id).unwrap().1.dom().contains(k),
        forall|k: Seq<char>|
            map.dom().contains(k) && !alias_slugs(aliases).contains(k) ==> #[trigger] alias_step(
                seen,
                map,
                aliases,
                id,
            ).unwrap().1[k] == map[k],
        forall|k: Seq<char>|
            #[trigger] alias_step(seen, map, aliases, id).unwrap().1.dom().contains(k) ==> map.dom().contains(k)
                || alias_slugs(aliases).contains(k),
    decreases aliases.len(),
{
    let als = alias_slugs(aliases);
    if aliases.len() == 0 {
        assert(seen + als =~= seen);
    } else {
        let t = aliases.drop_last();
        let at = alias_slugs(t);
        assert(at =~= als.drop_last());
        assert forall|p: int, q: int| 0 <= p < q < t.len() implies #[trigger] at[p] != #[trigger] at[q] by {
            assert(at[p] == als[p] && at[q] == als[q]);
        }
        assert forall|p: int| 0 <= p < t.len() implies !seen.contains(#[trigger] at[p]) by {
            assert(at[p] == als[p]);
        }
        lemma_alias_step_fresh(seen, map, t, id);
        let (seen2, m2) = alias_step(seen, map, t, id).unwrap();
        let n = aliases.len() - 1;
        let a = slugify_spec(aliases.last()@);
        assert(a == als[n]);
        assert(!seen2.contains(a)) by {
            if seen2.contains(a) {
                let x = choose|x: int| 0 <= x < seen2.len() && seen2[x] == a;
                if x < seen.len() {
                    assert(seen[x] == a);
                    assert(seen.contains(a));
                } else {
                    assert(at[x - seen.len()] == a);
                    assert(als[x - seen.len()] == a);
                }
            }
        }
        assert(seen2.push(a) =~= seen + als);
        let m3 = m2.insert(a, id);
        assert forall|p: int| 0 <= p < aliases.len() implies m3.dom().contains(#[trigger] als[p])
            && m3[als[p]] == id by {
            if p < n {
                assert(als[p] == at[p]);
            }
        }
        assert forall|k: Seq<char>| map.dom().contains(k) && !als.contains(k) implies #[trigger] m3[k]
            == map[k] by {
            if at.contains(k) {
                let x = choose|x: int| 0 <= x < at.len() && at[x] == k;
                assert(als[x] == k);
            }
            if k == a {
                assert(als[n] == k);
            }
        }
        assert forall|k: Seq<char>| #[trigger] m3.dom().contains(k) implies map.dom().contains(k)
            || als.contains(k) by {
            if k == a {
                assert(als[n] == k);
            } else if at.contains(k) {
                let x = choose|x: int| 0 <= x < at.len() && at[x] == k;
                assert(als[x] == k);
            }
        }
    }
}


proof fn lemma_path_of_prefix(nodes: Seq<NodeFile>, slugs: Map<Seq<char>, Seq<char>>, k: Seq<char>)
    requires
        nodes.len() > 0,
        is_path_of(nodes.drop_last(), slugs, k),
    ensures
        is_path_of(nodes, slugs, k),
{
    let t = nodes.drop_last();
    let (i, p) = choose|i: int, p: int|
        0 <= i < t.len() && 0 <= p < node_paths(t[i], slugs).len() && #[trigger] node_paths(
            t[i],
            slugs,
        )[p] == k;
    assert(t[i] == nodes[i]);
    assert(node_paths(nodes[i], slugs)[p] == k);
}

proof fn lemma_paths_distinct_prefix(nodes: Seq<NodeFile>, slugs: Map<Seq<char>, Seq<char>>)
    requires
        nodes.len() > 0,
        paths_distinct(nodes, slugs),
    ensures
        paths_distinct(nodes.drop_last(), slugs),
{
    let t = nodes.drop_last();
    assert forall|i: int, j: int, p: int, q: int|
        0 <= i < t.len() && 0 <= j < t.len() && 0 <= p < node_paths(t[i], slugs).len() && 0 <= q
            < node_paths(t[j], slugs).len() && (i != j || p != q) implies #[trigger] node_paths(
        t[i],
        slugs,
    )[p] != #[trigger] node_paths(t[j], slugs)[q] by {
        assert(t[i] == nodes[i] && t[j] == nodes[j]);
    }
}

/// The number of paths of the nodes, each node's paths counted.
pub open spec fn path_count(nodes: Seq<NodeFile>, slugs: Map<Seq<char>, Seq<char>>) -> nat
    decreases nodes.len(),
{
    if nodes.len() == 0 {
        0
    } else {
        path_count(nodes.drop_last(), slugs) + node_paths(nodes.last(), slugs).len()
    }
}

/// The paths of the nodes, as a set.
pub open spec fn path_set(nodes: Seq<NodeFile>, slugs: Map<Seq<char>, Seq<char>>) -> Set<Seq<char>> {
    Set::new(|k: Seq<char>| is_path_of(nodes, slugs, k))
}

proof fn lemma_path_set_len(nodes: Seq<NodeFile>, slugs: Map<Seq<char>, Seq<char>>)
    requires
        paths_distinct(nodes, slugs),
    ensures
        path_set(nodes, slugs).finite(),
        path_set(nodes, slugs).len() == path_count(nodes, slugs),
    decreases nodes.len(),
{
    if nodes.len() == 0 {
        assert(path_set(nodes, slugs) =~= Set::<Seq<char>>::empty());
    } else {
        let t = nodes.drop_last();
        let n = nodes.len() - 1;
        lemma_paths_distinct_prefix(nodes, slugs);
        lemma_path_set_len(t, slugs);
        let last = node_paths(nodes[n], slugs);
        assert(last.no_duplicates()) by {
            assert forall|i: int, j: int| 0 <= i < last.len() && 0 <= j < last.len() && i != j implies last[i]
                != last[j] by {
                assert(node_paths(nodes[n], slugs)[i] != node_paths(nodes[n], slugs)[j]);
            }
        }
        last.unique_seq_to_set();
        vstd::seq_lib::seq_to_set_is_finite(last);
        let a = path_set(t, slugs);
        let b = last.to_set();
        assert(a.disjoint(b)) by {
            assert forall|x: Seq<char>| a.contains(x) implies !b.contains(x) by {
                let (i, p) = choose|i: int, p: int|
                    0 <= i < t.len() && 0 <= p < node_paths(t[i], slugs).len() && #[trigger] node_paths(
                        t[i],
                        slugs,
                    )[p] == x;
                assert(t[i] == nodes[i]);
                if b.contains(x) {
                    let q = choose|q: int| 0 <= q < last.len() && last[q] == x;
                    assert(node_paths(nodes[i], slugs)[p] != node_paths(nodes[n], slugs)[q]);
                }
            }
        }
        assert forall|x: Seq<char>| path_set(nodes, slugs).contains(x) <==> (a + b).contains(x) by {
            if is_path_of(nodes, slugs, x) {
                let (i, p) = choose|i: int, p: int|
                    0 <= i < nodes.len() && 0 <= p < node_paths(nodes[i], slugs).len()
                        && #[trigger] node_paths(nodes[i], slugs)[p] == x;
                if i < n {
                    assert(t[i] == nodes[i]);
                    assert(node_paths(t[i], slugs)[p] == x);
                } else {
                    assert(last[p] == x);
                }
            }
            if a.contains(x) {
                lemma_path_of_prefix(nodes, slugs, x);
            }
            if b.contains(x) {
                let q = choose|q: int| 0 <= q < last.len() && last[q] == x;
                assert(node_paths(nodes[n], slugs)[q] == x);
            }
        }
        assert(path_set(nodes, slugs) =~= a + b);
        vstd::set_lib::lemma_set_disjoint_lens(a, b);
    }
}

proof fn lemma_alias_table_paths(nodes: Seq<NodeFile>, slugs: Map<Seq<char>, Seq<char>>)
    requires
        paths_distinct(nodes, slugs),
    ensures
        alias_table(nodes, slugs) is Some,
        forall|x: Seq<char>|
            #[trigger] alias_table(nodes, slugs).unwrap().0.contains(x) ==> is_path_of(nodes, slugs, x),
        forall|i: int, p: int|
            0 <= i < nodes.len() && 0 <= p < node_paths(nodes[i], slugs).len() ==> alias_table(
                nodes,
                slugs,
            ).unwrap().1.dom().contains(#[trigger] node_paths(nodes[i], slugs)[p]) && alias_table(
                nodes,
                slugs,
            ).unwrap().1[node_paths(nodes[i], slugs)[p]] == nodes[i].id@,
        forall|k: Seq<char>|
            #[trigger] alias_table(nodes, slugs).unwrap().1.dom().contains(k) ==> is_path_of(
                nodes,
                slugs,
                k,
            ),
    decreases nodes.len(),
{
    if nodes.len() > 0 {
        let t = nodes.drop_last();
        let n = nodes.len() - 1;
        lemma_paths_distinct_prefix(nodes, slugs);
        lemma_alias_table_paths(t, slugs);
        let (seen, map) = alias_table(t, slugs).unwrap();
        let node = nodes.last();
        let id = node.id@;
        let own = own_paths(node, slugs);
        let als = alias_slugs(node.aliases@);
        let paths = node_paths(node, slugs);
        let o = own.len();
        assert(nodes[n] == node);
        assert forall|p: int| 0 <= p < als.len() implies #[trigger] paths[o + p] == als[p] by {}
        assert forall|p: int, q: int| 0 <= p < q < node.aliases@.len() implies #[trigger] als[p]
            != #[trigger] als[q] by {
            assert(paths[o + p] == als[p] && paths[o + q] == als[q]);
            assert(node_paths(nodes[n], slugs)[o + p] != node_paths(nodes[n], slugs)[o + q]);
        }
        assert forall|p: int| 0 <= p < node.aliases@.len() implies !seen.contains(
            #[trigger] als[p],
        ) by {
            if seen.contains(als[p]) {
                assert(is_path_of(t, slugs, als[p]));
                let (i, q) = choose|i: int, q: int|
                    0 <= i < t.len() && 0 <= q < node_paths(t[i], slugs).len() && #[trigger] node_paths(
                        t[i],
                        slugs,
                    )[q] == als[p];
                assert(t[i] == nodes[i]);
                assert(paths[o + p] == als[p]);
                assert(node_paths(nodes[i], slugs)[q] != node_paths(nodes[n], slugs)[o + p]);
            }
        }
        let with_slug = if slugs.dom().contains(id) {
            map.insert(slugs[id], id)
        } else {
            map
        };
        let w = with_slug.insert(id, id);
        lemma_alias_step_fresh(seen, w, node.aliases@, id);
        let (seen3, m3) = alias_table(nodes, slugs).unwrap();
        assert(alias_table(nodes, slugs) == alias_step(seen, w, node.aliases@, id));
        // a path of an earlier node is none of this node's paths
        assert forall|i: int, p: int, q: int|
            0 <= i < n && 0 <= p < node_paths(nodes[i], slugs).len() && 0 <= q < paths.len()
                implies #[trigger] node_paths(nodes[i], slugs)[p] != #[trigger] paths[q] by {
            assert(node_paths(nodes[n], slugs)[q] == paths[q]);
        }
        assert forall|x: Seq<char>| #[trigger] seen3.contains(x) implies is_path_of(nodes, slugs, x) by {
            assert(seen3 == seen + als);
            let y = choose|y: int| 0 <= y < seen3.len() && seen3[y] == x;
            if y < seen.len() {
                assert(seen[y] == x);
                assert(seen.contains(x));
                lemma_path_of_prefix(nodes, slugs, x);
            } else {
                assert(als[y - seen.len()] == x);
                assert(paths[o + y - seen.len()] == x);
                assert(node_paths(nodes[n], slugs)[o + y - seen.len()] == x);
            }
        }
        assert forall|i: int, p: int|
            0 <= i < nodes.len() && 0 <= p < node_paths(nodes[i], slugs).len() implies m3.dom().contains(
            #[trigger] node_paths(nodes[i], slugs)[p],
        ) && m3[node_paths(nodes[i], slugs)[p]] == nodes[i].id@ by {
            let k = node_paths(nodes[i], slugs)[p];
            if i < n {
                assert(t[i] == nodes[i]);
                assert(node_paths(t[i], slugs)[p] == k);
                assert(map.dom().contains(k) && map[k] == nodes[i].id@);
                assert(k != id) by {
                    assert(paths[o - 1] == id);
                }
                if slugs.dom().contains(id) {
                    assert(k != slugs[id]) by {
                        assert(paths[0] == slugs[id]);
                    }
                }
                assert(!als.contains(k)) by {
                    if als.contains(k) {
                        let x = choose|x: int| 0 <= x < als.len() && als[x] == k;
                        assert(paths[o + x] == k);
                    }
                }
                assert(w.dom().contains(k) && w[k] == map[k]);
            } else {
                assert(i == n);
                if p >= o {
                    assert(als[p - o] == k);
                } else {
                    assert(!als.contains(k)) by {
                        if als.contains(k) {
                            let x = choose|x: int| 0 <= x < als.len() && als[x] == k;
                            assert(paths[o + x] == k);
                            assert(node_paths(nodes[n], slugs)[o + x] != node_paths(nodes[n], slugs)[p]);
                        }
                    }
                    if slugs.dom().contains(id) && p == 0 {
                        assert(paths[0] != paths[1]) by {
                            assert(node_paths(nodes[n], slugs)[0] != node_paths(nodes[n], slugs)[1]);
                        }
                        assert(k == slugs[id]);
                        assert(w[k] == id);
                    } else {
                        assert(k == id);
                    }
                    assert(w.dom().contains(k) && w[k] == id);
                }
            }
        }
        assert forall|k: Seq<char>| #[trigger] m3.dom().contains(k) implies is_path_of(nodes, slugs, k) by {
            if als.contains(k) {
                let x = choose|x: int| 0 <= x < als.len() && als[x] == k;
                assert(node_paths(nodes[n], slugs)[o + x] == k);
            } else if k == id {
                assert(node_paths(nodes[n], slugs)[o - 1] == k);
            } else if slugs.dom().contains(id) && k == slugs[id] {
                assert(node_paths(nodes[n], slugs)[0] == k);
            } else {
                assert(map.dom().contains(k));
                lemma_path_of_prefix(nodes, slugs, k);
            }
        }
    }
}

/// Alias resolution: where no path is shared (neither within a node nor
/// between two nodes), the alias map is built, each path of each node (its
/// canonical slug, its UUID and the slug of each alias) leads back to that
/// node's UUID, the map holds no other path, and so it has one entry per
/// path.
pub proof fn law_alias_resolution(nodes: Seq<NodeFile>, slugs: Map<Seq<char>, Seq<char>>)
    requires
        paths_distinct(nodes, slugs),
    ensures
        alias_map_spec(nodes, slugs) is Some,
        forall|i: int, p: int|
            0 <= i < nodes.len() && 0 <= p < node_paths(nodes[i], slugs).len() ==> alias_map_spec(
                nodes,
                slugs,
            ).unwrap().dom().contains(#[trigger] node_paths(nodes[i], slugs)[p]) && alias_map_spec(
                nodes,
                slugs,
            ).unwrap()[node_paths(nodes[i], slugs)[p]] == nodes[i].id@,
        forall|k: Seq<char>|
            #[trigger] alias_map_spec(nodes, slugs).unwrap().dom().contains(k) <==> is_path_of(
                nodes,
                slugs,
                k,
            ),
        alias_map_spec(nodes, slugs).unwrap().dom().len() == path_count(nodes, slugs),
{
    let keys = node_ids(nodes);
    law_key_order(keys);
    let o = key_order(keys);
    let s = in_id_order(nodes);
    assert(s.len() == nodes.len());
    assert forall|k: int| 0 <= k < s.len() implies #[trigger] s[k] == nodes[o[k]] by {}
    assert forall|i: int, j: int, p: int, q: int|
        0 <= i < s.len() && 0 <= j < s.len() && 0 <= p < node_paths(s[i], slugs).len() && 0 <= q
            < node_paths(s[j], slugs).len() && (i != j || p != q) implies #[trigger] node_paths(
        s[i],
        slugs,
    )[p] != #[trigger] node_paths(s[j], slugs)[q] by {
        assert(s[i] == nodes[o[i]] && s[j] == nodes[o[j]]);
        if i != j {
            assert(o[i] != o[j]) by {
                if i < j {
                    assert(o[i] != o[j]);
                } else {
                    assert(o[j] != o[i]);
                }
            }
        }
        assert(node_paths(nodes[o[i]], slugs)[p] != node_paths(nodes[o[j]], slugs)[q]);
    }
    lemma_alias_table_paths(s, slugs);
    let m = alias_map_spec(nodes, slugs).unwrap();
    assert(m == alias_table(s, slugs).unwrap().1);
    assert forall|i: int, p: int|
        0 <= i < nodes.len() && 0 <= p < node_paths(nodes[i], slugs).len() implies m.dom().contains(
        #[trigger] node_paths(nodes[i], slugs)[p],
    ) && m[node_paths(nodes[i], slugs)[p]] == nodes[i].id@ by {
        assert(o.contains(i));
        let k = choose|k: int| 0 <= k < o.len() && o[k] == i;
        assert(s[k] == nodes[i]);
        assert(node_paths(s[k], slugs)[p] == node_paths(nodes[i], slugs)[p]);
    }
    assert forall|k: Seq<char>| #[trigger] m.dom().contains(k) <==> is_path_of(nodes, slugs, k) by {
        if m.dom().contains(k) {
            assert(is_path_of(s, slugs, k));
            let (i, p) = choose|i: int, p: int|
                0 <= i < s.len() && 0 <= p < node_paths(s[i], slugs).len() && #[trigger] node_paths(
                    s[i],
                    slugs,
                )[p] == k;
            assert(s[i] == nodes[o[i]]);
            assert(node_paths(nodes[o[i]], slugs)[p] == k);
        }
        if is_path_of(nodes, slugs, k) {
            let (i, p) = choose|i: int, p: int|
                0 <= i < nodes.len() && 0 <= p < node_paths(nodes[i], slugs).len()
                    && #[trigger] node_paths(nodes[i], slugs)[p] == k;
            assert(m.dom().contains(node_paths(nodes[i], slugs)[p]));
        }
    }
    assert(m.dom() =~= path_set(nodes, slugs));
    lemma_path_set_len(nodes, slugs);
}

/// The base slugs (slugs of the titles) of `nodes`, in order.
pub open spec fn base_slugs(nodes: Seq<NodeFile>) -> Seq<Seq<char>> {
    nodes.map_values(|n: NodeFile| slugify_spec(n.title@))
}

/// Node `k` of `nodes` is the first with its base slug.
pub open spec fn first_with_base(nodes: Seq<NodeFile>, k: int) -> bool {
    forall|j: int| 0 <= j < k ==> slugify_spec(#[trigger] nodes[j].title@) != slugify_spec(nodes[k].title@)
}

proof fn lemma_slug_table_entries(s: Seq<NodeFile>)
    requires
        distinct_ids(s),
        slug_table(s) is Some,
    ensures
        slug_table(s).unwrap().0 == base_slugs(s),
        forall|k: int|
            0 <= k < s.len() && first_with_base(s, k) ==> slug_table(s).unwrap().1[#[trigger] s[k].id@]
                == slugify_spec(s[k].title@),
        forall|k: int|
            0 <= k < s.len() && !first_with_base(s, k) ==> uuid_suffix(s[k].id@) is Some && slug_table(
                s,
            ).unwrap().1[#[trigger] s[k].id@] == slugify_spec(s[k].title@) + seq!['-'] + uuid_suffix(
                s[k].id@,
            ).unwrap(),
    decreases s.len(),
{
    if s.len() > 0 {
        let t = s.drop_last();
        let n = s.len() - 1;
        assert forall|i: int, j: int| 0 <= i < j < t.len() implies #[trigger] t[i].id@ != #[trigger] t[j].id@ by {
            assert(t[i] == s[i] && t[j] == s[j]);
        }
        lemma_slug_table_none_prefix(s);
        lemma_slug_table_entries(t);
        let (seen, map) = slug_table(t).unwrap();
        let node = s.last();
        let b = slugify_spec(node.title@);
        assert(base_slugs(s) =~= base_slugs(t).push(b));
        assert(seen.contains(b) <==> !first_with_base(s, n)) by {
            if seen.contains(b) {
                let j = choose|j: int| 0 <= j < seen.len() && seen[j] == b;
                assert(base_slugs(t)[j] == slugify_spec(s[j].title@));
            }
            if !first_with_base(s, n) {
                let j = choose|j: int| 0 <= j < n && slugify_spec(#[trigger] s[j].title@) != b == false;
                assert(seen[j] == slugify_spec(t[j].title@));
                assert(t[j] == s[j]);
            }
        }
        let m2 = slug_table(s).unwrap().1;
        assert forall|k: int| 0 <= k < n implies #[trigger] m2[s[k].id@] == map[s[k].id@] by {
            assert(s[k].id@ != s[n].id@);
        }
        assert forall|k: int| 0 <= k < n && first_with_base(s, k) implies first_with_base(t, k) by {
            assert forall|j: int| 0 <= j < k implies slugify_spec(#[trigger] t[j].title@) != slugify_spec(
                t[k].title@,
            ) by {
                assert(t[j] == s[j] && t[k] == s[k]);
            }
        }
        assert forall|k: int| 0 <= k < n && !first_with_base(s, k) implies !first_with_base(t, k) by {
            let j = choose|j: int| 0 <= j < k && slugify_spec(#[trigger] s[j].title@) == slugify_spec(
                s[k].title@,
            );
            assert(t[j] == s[j] && t[k] == s[k]);
        }
        assert forall|k: int| 0 <= k < n implies #[trigger] t[k] == s[k] by {}
    }
}

proof fn lemma_slug_table_none_prefix(s: Seq<NodeFile>)
    requires
        s.len() > 0,
        slug_table(s) is Some,
    ensures
        slug_table(s.drop_last()) is Some,
{
}

/// Collision handling: where no two nodes share a UUID, the first node in
/// UUID order with a given base slug (the slug of its title) gets that slug
/// itself, and each later node with the same base slug gets the base slug,
/// `-`, and its UUID suffix (the first 8 bytes of its lowercased UUID
/// without `-`).
pub proof fn law_collision_suffix(nodes: Seq<NodeFile>)
    requires
        distinct_ids(nodes),
        canonical_slugs(nodes) is Some,
    ensures
        forall|k: int|
            0 <= k < nodes.len() && first_with_base(in_id_order(nodes), k) ==> canonical_slugs(
                nodes,
            ).unwrap()[#[trigger] in_id_order(nodes)[k].id@] == slugify_spec(
                in_id_order(nodes)[k].title@,
            ),
        forall|k: int|
            0 <= k < nodes.len() && !first_with_base(in_id_order(nodes), k) ==> uuid_suffix(
                in_id_order(nodes)[k].id@,
            ) is Some && canonical_slugs(nodes).unwrap()[#[trigger] in_id_order(nodes)[k].id@]
                == slugify_spec(in_id_order(nodes)[k].title@) + seq!['-'] + uuid_suffix(
                in_id_order(nodes)[k].id@,
            ).unwrap(),
{
    law_processing_order(nodes);
    let s = in_id_order(nodes);
    assert forall|i: int, j: int| 0 <= i < j < s.len() implies #[trigger] s[i].id@ != #[trigger] s[j].id@ by {
        lemma_less_irreflexive(s[i].id@);
    }
    lemma_slug_table_entries(s);
}

proof fn lemma_remove_all_filter(s: Seq<char>, c: char)
    ensures
        remove_all(s, c) == s.filter(|x: char| x != c),
    decreases s.len(),
{
    reveal(Seq::filter);
    if s.len() > 0 {
        lemma_remove_all_filter(s.drop_last(), c);
    }
}

/// The UUID suffix: the UUID with every `-` removed, lowercased, and cut to
/// its first 8 bytes (all of it where it is shorter), at a character
/// boundary.
pub proof fn law_uuid_suffix(id: Seq<char>)
    ensures
        uuid_suffix(id) matches Some(t) ==> {
            let low = str_lowercase(id.filter(|x: char| x != '-'));
            &&& t == low.take(t.len() as int)
            &&& t.len() <= low.len()
            &&& utf8_len(t) == (if utf8_len(low) < 8 {
                utf8_len(low)
            } else {
                8
            })
        },
{
    lemma_remove_all_filter(id, '-');
}

/// Alias slug `a` was met before alias `p` of node `k` of `s` (in
/// processing order): as an alias slug of an earlier node, or of an earlier
/// alias of node `k`.
pub open spec fn alias_seen_before(s: Seq<NodeFile>, k: int, p: int, a: Seq<char>) -> bool {
    (exists|j: int, q: int|
        0 <= j < k && 0 <= q < s[j].aliases@.len() && #[trigger] alias_slugs(s[j].aliases@)[q] == a)
        || (exists|q: int| 0 <= q < p && #[trigger] alias_slugs(s[k].aliases@)[q] == a)
}

/// The path under which alias `p` of node `k` of `s` is published: its
/// slug, or, where that slug was met before, the slug, `-` and the node's
/// UUID suffix.
pub open spec fn alias_path(s: Seq<NodeFile>, k: int, p: int) -> Seq<char> {
    let a = alias_slugs(s[k].aliases@)[p];
    if alias_seen_before(s, k, p, a) {
        a + seq!['-'] + uuid_suffix(s[k].id@).unwrap()
    } else {
        a
    }
}

/// The paths of node `k` of `s` as published: its canonical slug (where the
/// slug map has one), its UUID, then the path of each alias.
pub open spec fn published_paths(s: Seq<NodeFile>, k: int, slugs: Map<Seq<char>, Seq<char>>) -> Seq<
    Seq<char>,
> {
    own_paths(s[k], slugs) + Seq::new(s[k].aliases@.len(), |p: int| alias_path(s, k, p))
}

/// No two published paths are the same, whether of one node or of two.
pub open spec fn published_distinct(s: Seq<NodeFile>, slugs: Map<Seq<char>, Seq<char>>) -> bool {
    forall|i: int, j: int, p: int, q: int|
        0 <= i < s.len() && 0 <= j < s.len() && 0 <= p < published_paths(s, i, slugs).len() && 0
            <= q < published_paths(s, j, slugs).len() && (i != j || p != q) ==> #[trigger] published_paths(
            s,
            i,
            slugs,
        )[p] != #[trigger] published_paths(s, j, slugs)[q]
}

/// The key under which `alias_step` puts alias `p` of `aliases`.
spec fn step_key(seen: Seq<Seq<char>>, aliases: Seq<String>, id: Seq<char>, p: int) -> Seq<char> {
    let a = alias_slugs(aliases)[p];
    if seen.contains(a) || alias_slugs(aliases).take(p).contains(a) {
        a + seq!['-'] + uuid_suffix(id).unwrap()
    } else {
        a
    }
}

proof fn lemma_alias_step_keys(
    seen: Seq<Seq<char>>,
    map: Map<Seq<char>, Seq<char>>,
    aliases: Seq<String>,
    id: Seq<char>,
)
    requires
        alias_step(seen, map, aliases, id) is Some,
        forall|p: int, q: int|
            0 <= p < q < aliases.len() ==> #[trigger] step_key(seen, aliases, id, p) != #[trigger] step_key(
                seen,
                aliases,
                id,
                q,
            ),
    ensures
        alias_step(seen, map, aliases, id).unwrap().0 == seen + alias_slugs(aliases),
        forall|p: int|
            0 <= p < aliases.len() ==> alias_step(seen, map, aliases, id).unwrap().1.dom().contains(
                #[trigger] step_key(seen, aliases, id, p),
            ) && alias_step(seen, map, aliases, id).unwrap().1[step_key(seen, aliases, id, p)] == id,
        forall|k: Seq<char>|
            map.dom().contains(k) && (forall|p: int|
                0 <= p < aliases.len() ==> #[trigger] step_key(seen, aliases, id, p) != k)
                ==> #[trigger] alias_step(seen, map, aliases, id).unwrap().1.dom().contains(k)
                && alias_step(seen, map, aliases, id).unwrap().1[k] == map[k],
    decreases aliases.len(),
{
    let als = alias_slugs(aliases);
    if aliases.len() == 0 {
        assert(seen + als =~= seen);
    } else {
        let t = aliases.drop_last();
        let at = alias_slugs(t);
        let n = aliases.len() - 1;
        assert(at =~= als.drop_last());
        assert forall|p: int| 0 <= p < t.len() implies #[trigger] step_key(seen, t, id, p) == step_key(
            seen,
            aliases,
            id,
            p,
        ) by {
            assert(at[p] == als[p]);
            assert(at.take(p) =~= als.take(p));
        }
        assert forall|p: int, q: int| 0 <= p < q < t.len() implies #[trigger] step_key(seen, t, id, p)
            != #[trigger] step_key(seen, t, id, q) by {
            assert(step_key(seen, t, id, p) == step_key(seen, aliases, id, p));
            assert(step_key(seen, t, id, q) == step_key(seen, aliases, id, q));
        }
        lemma_alias_step_none_prefix(seen, map, aliases, id);
        lemma_alias_step_keys(seen, map, t, id);
        let (seen2, m2) = alias_step(seen, map, t, id).unwrap();
        let a = slugify_spec(aliases.last()@);
        assert(a == als[n]);
        assert(als.take(n) =~= at);
        assert(seen2.contains(a) <==> (seen.contains(a) || at.contains(a))) by {
            if seen2.contains(a) {
                let x = choose|x: int| 0 <= x < seen2.len() && seen2[x] == a;
                if x < seen.len() {
                    assert(seen[x] == a);
                } else {
                    assert(at[x - seen.len()] == a);
                }
            }
            if seen.contains(a) {
                let x = choose|x: int| 0 <= x < seen.len() && seen[x] == a;
                assert(seen2[x] == a);
            }
            if at.contains(a) {
                let x = choose|x: int| 0 <= x < at.len() && at[x] == a;
                assert(seen2[seen.len() + x] == a);
            }
        }
        let key = step_key(seen, aliases, id, n);
        assert(seen2.push(a) =~= seen + als);
        let m3 = alias_step(seen, map, aliases, id).unwrap().1;
        assert(m3 == m2.insert(key, id));
        assert forall|p: int| 0 <= p < aliases.len() implies m3.dom().contains(
            #[trigger] step_key(seen, aliases, id, p),
        ) && m3[step_key(seen, aliases, id, p)] == id by {
            if p < n {
                assert(step_key(seen, t, id, p) == step_key(seen, aliases, id, p));
                assert(step_key(seen, aliases, id, p) != key);
            }
        }
        assert forall|k: Seq<char>|
            map.dom().contains(k) && (forall|p: int|
                0 <= p < aliases.len() ==> #[trigger] step_key(seen, aliases, id, p) != k) implies #[trigger] m3.dom().contains(
            k,
        ) && m3[k] == map[k] by {
            assert forall|p: int| 0 <= p < t.len() implies #[trigger] step_key(seen, t, id, p) != k by {
                assert(step_key(seen, t, id, p) == step_key(seen, aliases, id, p));
            }
            assert(step_key(seen, aliases, id, n) != k);
        }
    }
}

proof fn lemma_alias_step_none_prefix(
    seen: Seq<Seq<char>>,
    map: Map<Seq<char>, Seq<char>>,
    aliases: Seq<String>,
    id: Seq<char>,
)
    requires
        aliases.len() > 0,
        alias_step(seen, map, aliases, id) is Some,
    ensures
        alias_step(seen, map, aliases.drop_last(), id) is Some,
{
}

/// All alias slugs of `s`, node after node.
spec fn all_alias_slugs(s: Seq<NodeFile>) -> Seq<Seq<char>>
    decreases s.len(),
{
    if s.len() == 0 {
        Seq::empty()
    } else {
        all_alias_slugs(s.drop_last()) + alias_slugs(s.last().aliases@)
    }
}

proof fn lemma_all_alias_slugs(s: Seq<NodeFile>, a: Seq<char>)
    ensures
        all_alias_slugs(s).contains(a) <==> exists|j: int, q: int|
            0 <= j < s.len() && 0 <= q < s[j].aliases@.len() && #[trigger] alias_slugs(s[j].aliases@)[q]
                == a,
    decreases s.len(),
{
    if s.len() > 0 {
        let t = s.drop_last();
        let n = s.len() - 1;
        lemma_all_alias_slugs(t, a);
        let f = all_alias_slugs(s);
        let ft = all_alias_slugs(t);
        let l = alias_slugs(s[n].aliases@);
        if f.contains(a) {
            let x = choose|x: int| 0 <= x < f.len() && f[x] == a;
            if x < ft.len() {
                assert(ft[x] == a);
                let (j, q) = choose|j: int, q: int|
                    0 <= j < t.len() && 0 <= q < t[j].aliases@.len() && #[trigger] alias_slugs(
                        t[j].aliases@,
                    )[q] == a;
                assert(t[j] == s[j]);
            } else {
                assert(l[x - ft.len()] == a);
            }
        }
        if exists|j: int, q: int|
            0 <= j < s.len() && 0 <= q < s[j].aliases@.len() && #[trigger] alias_slugs(s[j].aliases@)[q]
                == a {
            let (j, q) = choose|j: int, q: int|
                0 <= j < s.len() && 0 <= q < s[j].aliases@.len() && #[trigger] alias_slugs(
                    s[j].aliases@,
                )[q] == a;
            if j < n {
                assert(t[j] == s[j]);
                assert(alias_slugs(t[j].aliases@)[q] == a);
                let x = choose|x: int| 0 <= x < ft.len() && ft[x] == a;
                assert(f[x] == a);
            } else {
                assert(f[ft.len() + q] == a);
            }
        }
    }
}

proof fn lemma_step_keeps(
    seen: Seq<Seq<char>>,
    w: Map<Seq<char>, Seq<char>>,
    aliases: Seq<String>,
    id: Seq<char>,
    key: Seq<char>,
)
    requires
        alias_step(seen, w, aliases, id) is Some,
        forall|p: int, q: int|
            0 <= p < q < aliases.len() ==> #[trigger] step_key(seen, aliases, id, p) != #[trigger] step_key(
                seen,
                aliases,
                id,
                q,
            ),
        w.dom().contains(key),
        forall|q: int| 0 <= q < aliases.len() ==> #[trigger] step_key(seen, aliases, id, q) != key,
    ensures
        alias_step(seen, w, aliases, id).unwrap().1.dom().contains(key),
        alias_step(seen, w, aliases, id).unwrap().1[key] == w[key],
{
    lemma_alias_step_keys(seen, w, aliases, id);
}

proof fn lemma_step_sets(
    seen: Seq<Seq<char>>,
    w: Map<Seq<char>, Seq<char>>,
    aliases: Seq<String>,
    id: Seq<char>,
    p: int,
)
    requires
        alias_step(seen, w, aliases, id) is Some,
        forall|p: int, q: int|
            0 <= p < q < aliases.len() ==> #[trigger] step_key(seen, aliases, id, p) != #[trigger] step_key(
                seen,
                aliases,
                id,
                q,
            ),
        0 <= p < aliases.len(),
    ensures
        alias_step(seen, w, aliases, id).unwrap().1.dom().contains(step_key(seen, aliases, id, p)),
        alias_step(seen, w, aliases, id).unwrap().1[step_key(seen, aliases, id, p)] == id,
{
    lemma_alias_step_keys(seen, w, aliases, id);
}

#[verifier::rlimit(40)]
proof fn lemma_alias_table_published(s: Seq<NodeFile>, slugs: Map<Seq<char>, Seq<char>>)
    requires
        alias_table(s, slugs) is Some,
        published_distinct(s, slugs),
    ensures
        alias_table(s, slugs).unwrap().0 == all_alias_slugs(s),
        forall|k: int, p: int|
            0 <= k < s.len() && 0 <= p < published_paths(s, k, slugs).len() ==> alias_table(
                s,
                slugs,
            ).unwrap().1.dom().contains(#[trigger] published_paths(s, k, slugs)[p]) && alias_table(
                s,
                slugs,
            ).unwrap().1[published_paths(s, k, slugs)[p]] == s[k].id@,
    decreases s.len(),
{
    if s.len() > 0 {
        let t = s.drop_last();
        let n = s.len() - 1;
        assert(alias_table(t, slugs) is Some);
        assert forall|k: int| 0 <= k < t.len() implies #[trigger] published_paths(t, k, slugs)
            == published_paths(s, k, slugs) by {
            assert(t[k] == s[k]);
            assert forall|p: int, a: Seq<char>| 0 <= p < t[k].aliases@.len() implies alias_seen_before(
                t,
                k,
                p,
                a,
            ) == #[trigger] alias_seen_before(s, k, p, a) by {
                if alias_seen_before(s, k, p, a) {
                    if exists|j: int, q: int|
                        0 <= j < k && 0 <= q < s[j].aliases@.len() && #[trigger] alias_slugs(
                            s[j].aliases@,
                        )[q] == a {
                        let (j, q) = choose|j: int, q: int|
                            0 <= j < k && 0 <= q < s[j].aliases@.len() && #[trigger] alias_slugs(
                                s[j].aliases@,
                            )[q] == a;
                        assert(t[j] == s[j]);
                        assert(alias_slugs(t[j].aliases@)[q] == a);
                    }
                }
                if alias_seen_before(t, k, p, a) {
                    if exists|j: int, q: int|
                        0 <= j < k && 0 <= q < t[j].aliases@.len() && #[trigger] alias_slugs(
                            t[j].aliases@,
                        )[q] == a {
                        let (j, q) = choose|j: int, q: int|
                            0 <= j < k && 0 <= q < t[j].aliases@.len() && #[trigger] alias_slugs(
                                t[j].aliases@,
                            )[q] == a;
                        assert(t[j] == s[j]);
                        assert(alias_slugs(s[j].aliases@)[q] == a);
                    }
                }
            }
            assert(Seq::new(t[k].aliases@.len(), |p: int| alias_path(t, k, p)) =~= Seq::new(
                s[k].aliases@.len(),
                |p: int| alias_path(s, k, p),
            ));
        }
        assert forall|i: int, j: int, p: int, q: int|
            0 <= i < t.len() && 0 <= j < t.len() && 0 <= p < published_paths(t, i, slugs).len() && 0
                <= q < published_paths(t, j, slugs).len() && (i != j || p != q) implies #[trigger] published_paths(
            t,
            i,
            slugs,
        )[p] != #[trigger] published_paths(t, j, slugs)[q] by {
            assert(published_paths(t, i, slugs) == published_paths(s, i, slugs));
            assert(published_paths(t, j, slugs) == published_paths(s, j, slugs));
        }
        lemma_alias_table_published(t, slugs);
        let (seen, map) = alias_table(t, slugs).unwrap();
        let node = s.last();
        let id = node.id@;
        let aliases = node.aliases@;
        let own = own_paths(node, slugs);
        let o = own.len();
        let pp = published_paths(s, n, slugs);
        assert(s[n] == node);
        // the key of each alias is its published path
        assert forall|p: int| 0 <= p < aliases.len() implies #[trigger] step_key(seen, aliases, id, p)
            == pp[o + p] by {
            let a = alias_slugs(aliases)[p];
            lemma_all_alias_slugs(t, a);
            assert(alias_slugs(aliases).take(p).contains(a) <==> exists|q: int|
                0 <= q < p && #[trigger] alias_slugs(s[n].aliases@)[q] == a) by {
                if alias_slugs(aliases).take(p).contains(a) {
                    let q = choose|q: int| 0 <= q < p && alias_slugs(aliases).take(p)[q] == a;
                    assert(alias_slugs(s[n].aliases@)[q] == a);
                }
                if exists|q: int| 0 <= q < p && #[trigger] alias_slugs(s[n].aliases@)[q] == a {
                    let q = choose|q: int| 0 <= q < p && #[trigger] alias_slugs(s[n].aliases@)[q] == a;
                    assert(alias_slugs(aliases).take(p)[q] == a);
                }
            }
            assert((exists|j: int, q: int|
                0 <= j < t.len() && 0 <= q < t[j].aliases@.len() && #[trigger] alias_slugs(
                    t[j].aliases@,
                )[q] == a) <==> (exists|j: int, q: int|
                0 <= j < n && 0 <= q < s[j].aliases@.len() && #[trigger] alias_slugs(
                    s[j].aliases@,
                )[q] == a)) by {
                if exists|j: int, q: int|
                    0 <= j < t.len() && 0 <= q < t[j].aliases@.len() && #[trigger] alias_slugs(
                        t[j].aliases@,
                    )[q] == a {
                    let (j, q) = choose|j: int, q: int|
                        0 <= j < t.len() && 0 <= q < t[j].aliases@.len() && #[trigger] alias_slugs(
                            t[j].aliases@,
                        )[q] == a;
                    assert(t[j] == s[j]);
                    assert(alias_slugs(s[j].aliases@)[q] == a);
                }
                if exists|j: int, q: int|
                    0 <= j < n && 0 <= q < s[j].aliases@.len() && #[trigger] alias_slugs(
                        s[j].aliases@,
                    )[q] == a {
                    let (j, q) = choose|j: int, q: int|
                        0 <= j < n && 0 <= q < s[j].aliases@.len() && #[trigger] alias_slugs(
                            s[j].aliases@,
                        )[q] == a;
                    assert(t[j] == s[j]);
                    assert(alias_slugs(t[j].aliases@)[q] == a);
                }
            }
            assert(pp[o + p] == alias_path(s, n, p));
        }
        assert forall|p: int, q: int| 0 <= p < q < aliases.len() implies #[trigger] step_key(
            seen,
            aliases,
            id,
            p,
        ) != #[trigger] step_key(seen, aliases, id, q) by {
            assert(published_paths(s, n, slugs)[o + p] != published_paths(s, n, slugs)[o + q]);
        }
        let with_slug = if slugs.dom().contains(id) {
            map.insert(slugs[id], id)
        } else {
            map
        };
        let w = with_slug.insert(id, id);
        assert(alias_table(s, slugs) == alias_step(seen, w, aliases, id));
        lemma_alias_step_keys(seen, w, aliases, id);
        let ms = alias_step(seen, w, aliases, id).unwrap().1;
        let m3 = alias_table(s, slugs).unwrap().1;
        assert(ms == m3);
        assert(all_alias_slugs(s) =~= all_alias_slugs(t) + alias_slugs(aliases));
        assert forall|k: int, p: int|
            0 <= k < s.len() && 0 <= p < published_paths(s, k, slugs).len() implies m3.dom().contains(
            #[trigger] published_paths(s, k, slugs)[p],
        ) && m3[published_paths(s, k, slugs)[p]] == s[k].id@ by {
            let key = published_paths(s, k, slugs)[p];
            if k < n {
                assert(published_paths(t, k, slugs) == published_paths(s, k, slugs));
                assert(t[k] == s[k]);
                assert(map.dom().contains(key) && map[key] == s[k].id@);
                assert(key != id) by {
                    assert(pp[o - 1] == id);
                }
                if slugs.dom().contains(id) {
                    assert(key != slugs[id]) by {
                        assert(pp[0] == slugs[id]);
                    }
                }
                assert forall|q: int| 0 <= q < aliases.len() implies #[trigger] step_key(
                    seen,
                    aliases,
                    id,
                    q,
                ) != key by {
                    assert(step_key(seen, aliases, id, q) == pp[o + q]);
                }
                assert(w.dom().contains(key) && w[key] == map[key]);
                lemma_step_keeps(seen, w, aliases, id, key);
            } else {
                if p >= o {
                    assert(step_key(seen, aliases, id, p - o) == key);
                    lemma_step_sets(seen, w, aliases, id, p - o);
                } else {
                    assert forall|q: int| 0 <= q < aliases.len() implies #[trigger] step_key(
                        seen,
                        aliases,
                        id,
                        q,
                    ) != key by {
                        assert(step_key(seen, aliases, id, q) == pp[o + q]);
                    }
                    if slugs.dom().contains(id) && p == 0 {
                        assert(pp[0] != pp[1]);
                    }
                    assert(w.dom().contains(key) && w[key] == id);
                    lemma_step_keeps(seen, w, aliases, id, key);
                }
            }
        }
    }
}

/// Alias collisions: where the alias map is built and no two published
/// paths coincide, each node's canonical slug and UUID, and each of its
/// aliases under its published path (the alias slug, or, where that slug
/// was met before in processing order, the slug, `-` and the node's UUID
/// suffix), lead to the node's UUID.
pub proof fn law_alias_collisions(nodes: Seq<NodeFile>, slugs: Map<Seq<char>, Seq<char>>)
    requires
        alias_map_spec(nodes, slugs) is Some,
        published_distinct(in_id_order(nodes), slugs),
    ensures
        forall|k: int, p: int|
            0 <= k < nodes.len() && 0 <= p < published_paths(in_id_order(nodes), k, slugs).len()
                ==> alias_map_spec(nodes, slugs).unwrap().dom().contains(
                #[trigger] published_paths(in_id_order(nodes), k, slugs)[p],
            ) && alias_map_spec(nodes, slugs).unwrap()[published_paths(in_id_order(nodes), k, slugs)[p]]
                == in_id_order(nodes)[k].id@,
{
    law_processing_order(nodes);
    lemma_alias_table_published(in_id_order(nodes), slugs);
}

} // verus!
