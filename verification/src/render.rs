//! Rendering of an org-element tree (as the org-roam export writes it) to an
//! HTML fragment.
//!
//! An element is an array `[type, props, child...]`; a string is text. Text is
//! HTML-escaped; each element type has its own HTML; trailing blanks that the
//! export records under `post-blank` follow the element's HTML.

use vstd::prelude::*;

use crate::decimal::{digit, digit_char};
use crate::json::{
    as_text, member_position, find_text, find_text_or_empty, find_u64, member_index, member_text,
    member_text_or_empty, member_u64, Json,
};
pub use crate::map::SlugMap;
pub use crate::text::html_escape;
pub use crate::timestamp::extract_last_modified;
use crate::text::{escape_seq, push_char, str_is, trim_end, trim_end_seq};

verus! {

broadcast use vstd::string::group_string_axioms;

/// `n` spaces.
pub open spec fn spaces(n: nat) -> Seq<char> {
    Seq::new(n, |i: int| ' ')
}

/// How many blanks follow an element (`post-blank`, 0 when absent).
pub open spec fn post_blank(props: Json) -> nat {
    match member_u64(props, "post-blank"@) {
        Some(n) => (n as usize) as nat,
        None => 0,
    }
}

/// The heading level of a headline: `level`, 1 when absent, clamped to 1..=6.
pub open spec fn headline_level(props: Json) -> u64 {
    let l = match member_u64(props, "level"@) {
        Some(n) => n,
        None => 1,
    };
    if l < 1 {
        1
    } else if l > 6 {
        6
    } else {
        l
    }
}

/// Element types that carry metadata and render to nothing.
pub open spec fn is_metadata_type(ty: Seq<char>) -> bool {
    ||| ty == "property-drawer"@
    ||| ty == "node-property"@
    ||| ty == "keyword"@
    ||| ty == "planning"@
    ||| ty == "comment"@
    ||| ty == "comment-block"@
    ||| ty == "clock"@
    ||| ty == "drawer"@
    ||| ty == "babel-call"@
    ||| ty == "diary-sexp"@
    ||| ty == "dynamic-block"@
    ||| ty == "export-block"@
    ||| ty == "export-snippet"@
    ||| ty == "inline-babel-call"@
    ||| ty == "macro"@
    ||| ty == "radio-target"@
    ||| ty == "target"@
    ||| ty == "special-block"@
    ||| ty == "inlinetask"@
    ||| ty == "statistics-cookie"@
    ||| ty == "todo-keyword"@
}

/// The box that an item of a list shows for its `checkbox` state.
pub open spec fn checkbox_html(props: Json) -> Seq<char> {
    let c = member_text(props, "checkbox"@);
    if c == Some("on"@) {
        "<input type=\"checkbox\" checked disabled> "@
    } else if c == Some("off"@) || c == Some("trans"@) {
        "<input type=\"checkbox\" disabled> "@
    } else {
        Seq::empty()
    }
}

/// The HTML of a link, given what its children render to (`inner`) and
/// whether it has any.
///
/// An `id` link points at the slug of the node it names (or at the UUID
/// itself where no slug is known); an `http`/`https` link at its raw target;
/// a `file` link becomes a span, never an anchor; any other link is its
/// description alone.
pub open spec fn link_html(
    props: Json,
    inner: Seq<char>,
    no_children: bool,
    slugs: Map<Seq<char>, Seq<char>>,
) -> Seq<char> {
    let link_type = member_text_or_empty(props, "type"@);
    let raw_link = member_text_or_empty(props, "raw-link"@);
    let path = member_text_or_empty(props, "path"@);
    let description = if no_children {
        escape_seq(raw_link)
    } else {
        inner
    };
    if link_type == "id"@ {
        let target = if slugs.dom().contains(path) {
            slugs[path]
        } else {
            path
        };
        "<a href=\"/"@ + target + "\">"@ + description + "</a>"@
    } else if link_type == "https"@ || link_type == "http"@ {
        "<a href=\""@ + raw_link + "\">"@ + description + "</a>"@
    } else if link_type == "file"@ {
        "<span class=\"file-link\">"@ + description + "</span>"@
    } else {
        description
    }
}

/// The HTML of a source block.
pub open spec fn src_block_html(props: Json) -> Seq<char> {
    let lang = member_text_or_empty(props, "language"@);
    let code = escape_seq(member_text_or_empty(props, "value"@));
    if lang.len() == 0 {
        "<pre><code>"@ + code + "</code></pre>\n"@
    } else {
        "<pre><code class=\"language-"@ + lang + "\">"@ + code + "</code></pre>\n"@
    }
}

/// An ASCII letter.
pub open spec fn is_ascii_letter(c: char) -> bool {
    ('A' <= c && c <= 'Z') || ('a' <= c && c <= 'z')
}

/// An ASCII digit.
pub open spec fn is_ascii_digit(c: char) -> bool {
    '0' <= c && c <= '9'
}

/// A proper HTML character reference: `&name;` (a letter, then letters and
/// digits) or `&#digits;`.
pub open spec fn is_entity_ref(t: Seq<char>) -> bool {
    &&& t.len() >= 3
    &&& t[0] == '&'
    &&& t.last() == ';'
    &&& {
        ||| (is_ascii_letter(t[1]) && forall|i: int|
            2 <= i < t.len() - 1 ==> is_ascii_letter(#[trigger] t[i]) || is_ascii_digit(t[i]))
        ||| (t[1] == '#' && t.len() >= 4 && forall|i: int|
            2 <= i < t.len() - 1 ==> is_ascii_digit(#[trigger] t[i]))
    }
}

/// The HTML of an entity: its `html` (else its `name`) where that is a proper
/// HTML character reference, else that text escaped.
pub open spec fn entity_html(props: Json) -> Seq<char> {
    let raw = match member_text(props, "html"@) {
        Some(t) => t,
        None => member_text_or_empty(props, "name"@),
    };
    if is_entity_ref(raw) {
        raw
    } else {
        escape_seq(raw)
    }
}

/// The HTML of one element of type `ty`, given what its children render to
/// (`inner`), what its title renders to (`title`, for headlines) and whether
/// it has children.
pub open spec fn element_html(
    ty: Seq<char>,
    props: Json,
    inner: Seq<char>,
    title: Seq<char>,
    no_children: bool,
    slugs: Map<Seq<char>, Seq<char>>,
) -> Seq<char> {
    if ty == "org-data"@ || ty == "section"@ {
        inner
    } else if ty == "paragraph"@ {
        "<p>"@ + trim_end_seq(inner) + "</p>\n"@
    } else if ty == "bold"@ {
        "<strong>"@ + inner + "</strong>"@
    } else if ty == "italic"@ {
        "<em>"@ + inner + "</em>"@
    } else if ty == "underline"@ {
        "<u>"@ + inner + "</u>"@
    } else if ty == "strike-through"@ {
        "<del>"@ + inner + "</del>"@
    } else if ty == "quote-block"@ {
        "<blockquote>\n"@ + inner + "\n</blockquote>\n"@
    } else if ty == "center-block"@ {
        "<div class=\"center\">"@ + inner + "\n</div>\n"@
    } else if ty == "verse-block"@ {
        "<pre class=\"verse\">"@ + inner + "</pre>\n"@
    } else if ty == "plain-list"@ {
        if member_text(props, "type"@) == Some("ordered"@) {
            "<ol>\n"@ + inner + "</ol>\n"@
        } else {
            "<ul>\n"@ + inner + "</ul>\n"@
        }
    } else if ty == "item"@ {
        "<li>"@ + checkbox_html(props) + inner + "</li>\n"@
    } else if ty == "table"@ {
        "<table>\n"@ + inner + "</table>\n"@
    } else if ty == "table-row"@ {
        if member_text(props, "type"@) == Some("rule"@) {
            Seq::empty()
        } else {
            "<tr>"@ + inner + "\n</tr>\n"@
        }
    } else if ty == "table-cell"@ {
        "<td>"@ + inner + "</td>"@
    } else if ty == "headline"@ {
        let d = seq![digit(headline_level(props) as int)];
        "<h"@ + d + ">"@ + title + "</h"@ + d + ">\n"@ + inner
    } else if ty == "verbatim"@ || ty == "code"@ {
        "<code>"@ + escape_seq(member_text_or_empty(props, "value"@)) + "</code>"@
    } else if ty == "src-block"@ {
        src_block_html(props)
    } else if ty == "example-block"@ || ty == "fixed-width"@ {
        "<pre><code>"@ + escape_seq(member_text_or_empty(props, "value"@)) + "</code></pre>\n"@
    } else if ty == "link"@ {
        link_html(props, inner, no_children, slugs)
    } else if ty == "timestamp"@ {
        "<time>"@ + escape_seq(member_text_or_empty(props, "raw-value"@)) + "</time>"@
    } else if ty == "subscript"@ {
        "_"@ + inner
    } else if ty == "superscript"@ {
        "^"@ + inner
    } else if ty == "entity"@ {
        entity_html(props)
    } else if ty == "line-break"@ {
        "<br>\n"@
    } else if ty == "horizontal-rule"@ {
        "<hr>\n"@
    } else if is_metadata_type(ty) {
        Seq::empty()
    } else {
        inner
    }
}

/// The HTML of a node: text is escaped; an element `[type, props, child...]`
/// renders by its type and is followed by its `post-blank` spaces; anything
/// else renders to nothing.
pub open spec fn render_spec(node: Json, slugs: Map<Seq<char>, Seq<char>>) -> Seq<char>
    decreases node,
{
    match node {
        Json::Str(s) => escape_seq(s@),
        Json::Arr(v) => {
            if v@.len() >= 2 {
                let ty = match as_text(v@[0]) {
                    Some(t) => t,
                    None => Seq::empty(),
                };
                let kids = v@.subrange(2, v@.len() as int);
                element_html(
                    ty,
                    v@[1],
                    render_seq(kids, slugs),
                    title_html(v@[1], slugs),
                    kids.len() == 0,
                    slugs,
                ) + spaces(post_blank(v@[1]))
            } else {
                Seq::empty()
            }
        },
        _ => Seq::empty(),
    }
}

/// The HTML of a sequence of nodes, one after the other.
pub open spec fn render_seq(s: Seq<Json>, slugs: Map<Seq<char>, Seq<char>>) -> Seq<char>
    decreases s,
{
    if s.len() == 0 {
        Seq::empty()
    } else {
        render_seq(s.drop_last(), slugs) + render_spec(s.last(), slugs)
    }
}

/// The HTML of a headline's `title` (an array of nodes); empty where there is
/// no such array.
pub open spec fn title_html(props: Json, slugs: Map<Seq<char>, Seq<char>>) -> Seq<char>
    decreases props,
{
    match props {
        Json::Obj(members) => match member_index(members@, "title"@) {
            Some(i) => {
                if 0 <= i < members@.len() {
                    match members@[i].1 {
                        Json::Arr(t) => render_seq(t@, slugs),
                        _ => Seq::empty(),
                    }
                } else {
                    Seq::empty()
                }
            },
            None => Seq::empty(),
        },
        _ => Seq::empty(),
    }
}

/// `a`, then `b`, then `c`.
pub fn join3(a: &str, b: &str, c: &str) -> (r: String)
    ensures
        r@ == a@ + b@ + c@,
{
    let mut out = String::from_str(a);
    out.append(b);
    out.append(c);
    out
}

pub(crate) fn is_metadata(ty: &str) -> (r: bool)
    ensures
        r == is_metadata_type(ty@),
{
    str_is(ty, "property-drawer") || str_is(ty, "node-property") || str_is(ty, "keyword")
        || str_is(ty, "planning") || str_is(ty, "comment") || str_is(ty, "comment-block")
        || str_is(ty, "clock") || str_is(ty, "drawer") || str_is(ty, "babel-call") || str_is(
        ty,
        "diary-sexp",
    ) || str_is(ty, "dynamic-block") || str_is(ty, "export-block") || str_is(
        ty,
        "export-snippet",
    ) || str_is(ty, "inline-babel-call") || str_is(ty, "macro") || str_is(ty, "radio-target")
        || str_is(ty, "target") || str_is(ty, "special-block") || str_is(ty, "inlinetask")
        || str_is(ty, "statistics-cookie") || str_is(ty, "todo-keyword")
}

fn checkbox(props: &Json) -> (r: &'static str)
    ensures
        r@ == checkbox_html(*props),
{
    match find_text(props, "checkbox") {
        Some(c) => {
            if str_is(c, "on") {
                "<input type=\"checkbox\" checked disabled> "
            } else if str_is(c, "off") || str_is(c, "trans") {
                "<input type=\"checkbox\" disabled> "
            } else {
                proof {
                    reveal_strlit("");
                }
                ""
            }
        },
        None => {
            proof {
                reveal_strlit("");
            }
            ""
        },
    }
}

fn link(props: &Json, description: String, slugs: &SlugMap) -> (r: String)
    ensures
        r@ == ({
            let link_type = member_text_or_empty(*props, "type"@);
            let raw_link = member_text_or_empty(*props, "raw-link"@);
            let path = member_text_or_empty(*props, "path"@);
            if link_type == "id"@ {
                let target = if slugs@.dom().contains(path) {
                    slugs@[path]
                } else {
                    path
                };
                "<a href=\"/"@ + target + "\">"@ + description@ + "</a>"@
            } else if link_type == "https"@ || link_type == "http"@ {
                "<a href=\""@ + raw_link + "\">"@ + description@ + "</a>"@
            } else if link_type == "file"@ {
                "<span class=\"file-link\">"@ + description@ + "</span>"@
            } else {
                description@
            }
        }),
{
    let link_type = find_text_or_empty(props, "type");
    let raw_link = find_text_or_empty(props, "raw-link");
    let path = find_text_or_empty(props, "path");
    if str_is(link_type, "id") {
        let target: &str = match slugs.get(path) {
            Some(slug) => slug.as_str(),
            None => path,
        };
        let mut out = join3("<a href=\"/", target, "\">");
        out.append(description.as_str());
        out.append("</a>");
        out
    } else if str_is(link_type, "https") || str_is(link_type, "http") {
        let mut out = join3("<a href=\"", raw_link, "\">");
        out.append(description.as_str());
        out.append("</a>");
        out
    } else if str_is(link_type, "file") {
        join3("<span class=\"file-link\">", description.as_str(), "</span>")
    } else {
        description
    }
}

fn src_block(props: &Json) -> (r: String)
    ensures
        r@ == src_block_html(*props),
{
    let lang = find_text_or_empty(props, "language");
    let code = html_escape(find_text_or_empty(props, "value"));
    if lang.unicode_len() == 0 {
        join3("<pre><code>", code.as_str(), "</code></pre>\n")
    } else {
        let mut out = join3("<pre><code class=\"language-", lang, "\">");
        out.append(code.as_str());
        out.append("</code></pre>\n");
        out
    }
}

/// Whether `t` is a proper HTML character reference (see `is_entity_ref`).
pub fn entity_ref(t: &str) -> (r: bool)
    ensures
        r == is_entity_ref(t@),
{
    let v = crate::text::chars_of(t);
    let n = v.len();
    if n < 3 || v[0] != '&' || v[n - 1] != ';' {
        return false;
    }
    let named = ('A' <= v[1] && v[1] <= 'Z') || ('a' <= v[1] && v[1] <= 'z');
    let numeric = v[1] == '#' && n >= 4;
    if !named && !numeric {
        return false;
    }
    let mut i: usize = 2;
    while i < n - 1
        invariant
            v@ == t@,
            n == v@.len(),
            n >= 3,
            2 <= i <= n - 1,
            named ==> is_ascii_letter(v@[1]),
            numeric ==> v@[1] == '#' && n >= 4,
            named || numeric,
            named ==> !numeric,
            forall|k: int|
                2 <= k < i ==> (if named {
                    is_ascii_letter(#[trigger] v@[k]) || is_ascii_digit(v@[k])
                } else {
                    is_ascii_digit(v@[k])
                }),
        decreases n - 1 - i,
    {
        let c = v[i];
        let digit = '0' <= c && c <= '9';
        let letter = ('A' <= c && c <= 'Z') || ('a' <= c && c <= 'z');
        if !(digit || (named && letter)) {
            return false;
        }
        i = i + 1;
    }
    true
}

fn entity(props: &Json) -> (r: String)
    ensures
        r@ == entity_html(*props),
{
    let raw: &str = match find_text(props, "html") {
        Some(t) => t,
        None => find_text_or_empty(props, "name"),
    };
    if entity_ref(raw) {
        String::from_str(raw)
    } else {
        html_escape(raw)
    }
}

/// Renders `v[from..]` one node after the other.
fn render_children(v: &Vec<Json>, from: usize, slugs: &SlugMap) -> (r: String)
    requires
        from <= v@.len(),
    ensures
        r@ == render_seq(v@.subrange(from as int, v@.len() as int), slugs@),
    decreases v, 1nat,
{
    let mut out = String::new();
    let n = v.len();
    let mut i = from;
    while i < n
        invariant
            from <= i <= n,
            n == v@.len(),
            out@ == render_seq(v@.subrange(from as int, i as int), slugs@),
        decreases n - i,
    {
        proof {
            assert(decreases_to!(v => v@[i as int]));
        }
        let h = render_node(&v[i], slugs);
        out.append(h.as_str());
        i = i + 1;
        proof {
            let s = v@.subrange(from as int, i as int);
            assert(s.drop_last() == v@.subrange(from as int, i - 1));
        }
    }
    out
}

/// Renders a headline's `title`.
fn render_title(props: &Json, slugs: &SlugMap) -> (r: String)
    ensures
        r@ == title_html(*props, slugs@),
    decreases props, 1nat,
{
    match props {
        Json::Obj(members) => match member_position(members, "title") {
            Some(i) => match &members[i].1 {
                Json::Arr(t) => {
                    proof {
                        assert(t@.subrange(0, t@.len() as int) == t@);
                        assert(decreases_to!(members => members@[i as int]));
                    }
                    render_children(t, 0, slugs)
                },
                _ => String::new(),
            },
            None => String::new(),
        },
        _ => String::new(),
    }
}

/// Renders one element `[ty, props, child...]` (without its `post-blank`).
fn render_element(ty: &str, props: &Json, v: &Vec<Json>, slugs: &SlugMap) -> (r: String)
    requires
        v@.len() >= 2,
        *props == v@[1],
    ensures
        r@ == element_html(
            ty@,
            *props,
            render_seq(v@.subrange(2, v@.len() as int), slugs@),
            title_html(*props, slugs@),
            v@.len() == 2,
            slugs@,
        ),
    decreases v, 4nat,
{
    proof {
        assert(v@.subrange(2, v@.len() as int).len() == v@.len() - 2);
    }
    if str_is(ty, "org-data") || str_is(ty, "section") {
        render_children(v, 2, slugs)
    } else if str_is(ty, "paragraph") {
        let inner = render_children(v, 2, slugs);
        let t = trim_end(inner.as_str());
        join3("<p>", t.as_str(), "</p>\n")
    } else if str_is(ty, "bold") {
        join3("<strong>", render_children(v, 2, slugs).as_str(), "</strong>")
    } else if str_is(ty, "italic") {
        join3("<em>", render_children(v, 2, slugs).as_str(), "</em>")
    } else if str_is(ty, "underline") {
        join3("<u>", render_children(v, 2, slugs).as_str(), "</u>")
    } else if str_is(ty, "strike-through") {
        join3("<del>", render_children(v, 2, slugs).as_str(), "</del>")
    } else if str_is(ty, "quote-block") {
        join3("<blockquote>\n", render_children(v, 2, slugs).as_str(), "\n</blockquote>\n")
    } else if str_is(ty, "center-block") {
        join3("<div class=\"center\">", render_children(v, 2, slugs).as_str(), "\n</div>\n")
    } else if str_is(ty, "verse-block") {
        join3("<pre class=\"verse\">", render_children(v, 2, slugs).as_str(), "</pre>\n")
    } else {
        render_element_rest(ty, props, v, slugs)
    }
}

fn render_element_rest(ty: &str, props: &Json, v: &Vec<Json>, slugs: &SlugMap) -> (r: String)
    requires
        v@.len() >= 2,
        *props == v@[1],
        !(ty@ == "org-data"@ || ty@ == "section"@),
        ty@ != "paragraph"@,
        ty@ != "bold"@,
        ty@ != "italic"@,
        ty@ != "underline"@,
        ty@ != "strike-through"@,
        ty@ != "quote-block"@,
        ty@ != "center-block"@,
        ty@ != "verse-block"@,
    ensures
        r@ == element_html(
            ty@,
            *props,
            render_seq(v@.subrange(2, v@.len() as int), slugs@),
            title_html(*props, slugs@),
            v@.len() == 2,
            slugs@,
        ),
    decreases v, 3nat,
{
    proof {
        assert(v@.subrange(2, v@.len() as int).len() == v@.len() - 2);
    }
    if str_is(ty, "plain-list") {
        let inner = render_children(v, 2, slugs);
        let ordered = match find_text(props, "type") {
            Some(t) => str_is(t, "ordered"),
            None => false,
        };
        if ordered {
            join3("<ol>\n", inner.as_str(), "</ol>\n")
        } else {
            join3("<ul>\n", inner.as_str(), "</ul>\n")
        }
    } else if str_is(ty, "item") {
        let inner = render_children(v, 2, slugs);
        let mut out = join3("<li>", checkbox(props), inner.as_str());
        out.append("</li>\n");
        out
    } else if str_is(ty, "table") {
        join3("<table>\n", render_children(v, 2, slugs).as_str(), "</table>\n")
    } else if str_is(ty, "table-row") {
        let rule = match find_text(props, "type") {
            Some(t) => str_is(t, "rule"),
            None => false,
        };
        if rule {
            String::new()
        } else {
            join3("<tr>", render_children(v, 2, slugs).as_str(), "\n</tr>\n")
        }
    } else if str_is(ty, "table-cell") {
        join3("<td>", render_children(v, 2, slugs).as_str(), "</td>")
    } else if str_is(ty, "headline") {
        let level = match find_u64(props, "level") {
            Some(n) => n,
            None => 1,
        };
        let level = if level < 1 {
            1
        } else if level > 6 {
            6
        } else {
            level
        };
        let d = digit_char(level);
        let title = render_title(props, slugs);
        let inner = render_children(v, 2, slugs);
        let mut out = String::from_str("<h");
        push_char(&mut out, d);
        out.append(">");
        out.append(title.as_str());
        out.append("</h");
        push_char(&mut out, d);
        out.append(">\n");
        out.append(inner.as_str());
        out
    } else {
        render_element_leaf(ty, props, v, slugs)
    }
}

fn render_element_leaf(ty: &str, props: &Json, v: &Vec<Json>, slugs: &SlugMap) -> (r: String)
    requires
        v@.len() >= 2,
        *props == v@[1],
        !(ty@ == "org-data"@ || ty@ == "section"@),
        ty@ != "paragraph"@,
        ty@ != "bold"@,
        ty@ != "italic"@,
        ty@ != "underline"@,
        ty@ != "strike-through"@,
        ty@ != "quote-block"@,
        ty@ != "center-block"@,
        ty@ != "verse-block"@,
        ty@ != "plain-list"@,
        ty@ != "item"@,
        ty@ != "table"@,
        ty@ != "table-row"@,
        ty@ != "table-cell"@,
        ty@ != "headline"@,
    ensures
        r@ == element_html(
            ty@,
            *props,
            render_seq(v@.subrange(2, v@.len() as int), slugs@),
            title_html(*props, slugs@),
            v@.len() == 2,
            slugs@,
        ),
    decreases v, 2nat,
{
    proof {
        assert(v@.subrange(2, v@.len() as int).len() == v@.len() - 2);
    }
    if str_is(ty, "verbatim") || str_is(ty, "code") {
        let code = html_escape(find_text_or_empty(props, "value"));
        join3("<code>", code.as_str(), "</code>")
    } else if str_is(ty, "src-block") {
        src_block(props)
    } else if str_is(ty, "example-block") || str_is(ty, "fixed-width") {
        let code = html_escape(find_text_or_empty(props, "value"));
        join3("<pre><code>", code.as_str(), "</code></pre>\n")
    } else if str_is(ty, "link") {
        let description = if v.len() == 2 {
            html_escape(find_text_or_empty(props, "raw-link"))
        } else {
            render_children(v, 2, slugs)
        };
        link(props, description, slugs)
    } else if str_is(ty, "timestamp") {
        let raw = html_escape(find_text_or_empty(props, "raw-value"));
        join3("<time>", raw.as_str(), "</time>")
    } else if str_is(ty, "subscript") {
        let inner = render_children(v, 2, slugs);
        let mut out = String::from_str("_");
        out.append(inner.as_str());
        out
    } else if str_is(ty, "superscript") {
        let inner = render_children(v, 2, slugs);
        let mut out = String::from_str("^");
        out.append(inner.as_str());
        out
    } else if str_is(ty, "entity") {
        entity(props)
    } else if str_is(ty, "line-break") {
        String::from_str("<br>\n")
    } else if str_is(ty, "horizontal-rule") {
        String::from_str("<hr>\n")
    } else if is_metadata(ty) {
        String::new()
    } else {
        render_children(v, 2, slugs)
    }
}

/// Renders one node to HTML (see `render_spec`).
pub fn render_node(node: &Json, slugs: &SlugMap) -> (r: String)
    ensures
        r@ == render_spec(*node, slugs@),
    decreases node, 5nat,
{
    match node {
        Json::Str(s) => html_escape(s.as_str()),
        Json::Arr(v) => {
            if v.len() >= 2 {
                let ty: &str = match &v[0] {
                    Json::Str(t) => t.as_str(),
                    _ => {
                        proof {
                            reveal_strlit("");
                            assert(""@ =~= Seq::<char>::empty());
                        }
                        ""
                    },
                };
                let props = &v[1];
                let mut html = render_element(ty, props, v, slugs);
                let count: usize = match find_u64(props, "post-blank") {
                    Some(n) => #[verifier::truncate] (n as usize),
                    None => 0,
                };
                let ghost before = html@;
                let mut k: usize = 0;
                while k < count
                    invariant
                        k <= count,
                        html@ == before + spaces(k as nat),
                    decreases count - k,
                {
                    push_char(&mut html, ' ');
                    k = k + 1;
                    proof {
                        assert(html@ == before + spaces(k as nat));
                    }
                }
                html
            } else {
                String::new()
            }
        },
        _ => String::new(),
    }
}

/// Render a complete node AST to an HTML fragment string.
/// `ast` is the full AST value from NodeFile.ast.
/// `slugs` maps UUID -> slug for resolving id: links.
pub fn render_ast(ast: &Json, slugs: &SlugMap) -> (r: String)
    ensures
        r@ == render_spec(*ast, slugs@),
{
    render_node(ast, slugs)
}


/// Text renders as its HTML escape, so it never holds `<`, `>` or `"`.
pub proof fn law_text_escaped(s: String, slugs: Map<Seq<char>, Seq<char>>)
    ensures
        render_spec(Json::Str(s), slugs) == escape_seq(s@),
        forall|i: int|
            0 <= i < render_spec(Json::Str(s), slugs).len() ==> #[trigger] render_spec(
                Json::Str(s),
                slugs,
            )[i] != '<' && render_spec(Json::Str(s), slugs)[i] != '>' && render_spec(
                Json::Str(s),
                slugs,
            )[i] != '"',
{
    crate::text::law_escape_no_markup(s@);
}

/// A metadata type is none of the types rendered before it: each differs
/// from them in length or first character.
proof fn lemma_metadata_not_rendered(ty: Seq<char>)
    requires
        is_metadata_type(ty),
    ensures
        ty != "org-data"@,
        ty != "section"@,
        ty != "paragraph"@,
        ty != "bold"@,
        ty != "italic"@,
        ty != "underline"@,
        ty != "strike-through"@,
        ty != "quote-block"@,
        ty != "center-block"@,
        ty != "verse-block"@,
        ty != "plain-list"@,
        ty != "item"@,
        ty != "table"@,
        ty != "table-row"@,
        ty != "table-cell"@,
        ty != "headline"@,
        ty != "verbatim"@,
        ty != "code"@,
        ty != "src-block"@,
        ty != "example-block"@,
        ty != "fixed-width"@,
        ty != "link"@,
        ty != "timestamp"@,
        ty != "subscript"@,
        ty != "superscript"@,
        ty != "entity"@,
        ty != "line-break"@,
        ty != "horizontal-rule"@,
{
    reveal_strlit("org-data");
    reveal_strlit("section");
    reveal_strlit("paragraph");
    reveal_strlit("bold");
    reveal_strlit("italic");
    reveal_strlit("underline");
    reveal_strlit("strike-through");
    reveal_strlit("quote-block");
    reveal_strlit("center-block");
    reveal_strlit("verse-block");
    reveal_strlit("plain-list");
    reveal_strlit("item");
    reveal_strlit("table");
    reveal_strlit("table-row");
    reveal_strlit("table-cell");
    reveal_strlit("headline");
    reveal_strlit("verbatim");
    reveal_strlit("code");
    reveal_strlit("src-block");
    reveal_strlit("example-block");
    reveal_strlit("fixed-width");
    reveal_strlit("link");
    reveal_strlit("timestamp");
    reveal_strlit("subscript");
    reveal_strlit("superscript");
    reveal_strlit("entity");
    reveal_strlit("line-break");
    reveal_strlit("horizontal-rule");
    reveal_strlit("property-drawer");
    reveal_strlit("node-property");
    reveal_strlit("keyword");
    reveal_strlit("planning");
    reveal_strlit("comment");
    reveal_strlit("comment-block");
    reveal_strlit("clock");
    reveal_strlit("drawer");
    reveal_strlit("babel-call");
    reveal_strlit("diary-sexp");
    reveal_strlit("dynamic-block");
    reveal_strlit("export-block");
    reveal_strlit("export-snippet");
    reveal_strlit("inline-babel-call");
    reveal_strlit("macro");
    reveal_strlit("radio-target");
    reveal_strlit("target");
    reveal_strlit("special-block");
    reveal_strlit("inlinetask");
    reveal_strlit("statistics-cookie");
    reveal_strlit("todo-keyword");
    assert("org-data"@.len() == 8 && "org-data"@[0] == 'o');
    assert("section"@.len() == 7 && "section"@[0] == 's');
    assert("paragraph"@.len() == 9 && "paragraph"@[0] == 'p');
    assert("bold"@.len() == 4 && "bold"@[0] == 'b');
    assert("italic"@.len() == 6 && "italic"@[0] == 'i');
    assert("underline"@.len() == 9 && "underline"@[0] == 'u');
    assert("strike-through"@.len() == 14 && "strike-through"@[0] == 's');
    assert("quote-block"@.len() == 11 && "quote-block"@[0] == 'q');
    assert("center-block"@.len() == 12 && "center-block"@[0] == 'c');
    assert("verse-block"@.len() == 11 && "verse-block"@[0] == 'v');
    assert("plain-list"@.len() == 10 && "plain-list"@[0] == 'p');
    assert("item"@.len() == 4 && "item"@[0] == 'i');
    assert("table"@.len() == 5 && "table"@[0] == 't');
    assert("table-row"@.len() == 9 && "table-row"@[0] == 't');
    assert("table-cell"@.len() == 10 && "table-cell"@[0] == 't');
    assert("headline"@.len() == 8 && "headline"@[0] == 'h');
    assert("verbatim"@.len() == 8 && "verbatim"@[0] == 'v');
    assert("code"@.len() == 4 && "code"@[0] == 'c');
    assert("src-block"@.len() == 9 && "src-block"@[0] == 's');
    assert("example-block"@.len() == 13 && "example-block"@[0] == 'e');
    assert("fixed-width"@.len() == 11 && "fixed-width"@[0] == 'f');
    assert("link"@.len() == 4 && "link"@[0] == 'l');
    assert("timestamp"@.len() == 9 && "timestamp"@[0] == 't');
    assert("subscript"@.len() == 9 && "subscript"@[0] == 's');
    assert("superscript"@.len() == 11 && "superscript"@[0] == 's');
    assert("entity"@.len() == 6 && "entity"@[0] == 'e');
    assert("line-break"@.len() == 10 && "line-break"@[0] == 'l');
    assert("horizontal-rule"@.len() == 15 && "horizontal-rule"@[0] == 'h');
    assert("property-drawer"@.len() == 15 && "property-drawer"@[0] == 'p');
    assert("node-property"@.len() == 13 && "node-property"@[0] == 'n');
    assert("keyword"@.len() == 7 && "keyword"@[0] == 'k');
    assert("planning"@.len() == 8 && "planning"@[0] == 'p');
    assert("comment"@.len() == 7 && "comment"@[0] == 'c');
    assert("comment-block"@.len() == 13 && "comment-block"@[0] == 'c');
    assert("clock"@.len() == 5 && "clock"@[0] == 'c');
    assert("drawer"@.len() == 6 && "drawer"@[0] == 'd');
    assert("babel-call"@.len() == 10 && "babel-call"@[0] == 'b');
    assert("diary-sexp"@.len() == 10 && "diary-sexp"@[0] == 'd');
    assert("dynamic-block"@.len() == 13 && "dynamic-block"@[0] == 'd');
    assert("export-block"@.len() == 12 && "export-block"@[0] == 'e');
    assert("export-snippet"@.len() == 14 && "export-snippet"@[0] == 'e');
    assert("inline-babel-call"@.len() == 17 && "inline-babel-call"@[0] == 'i');
    assert("macro"@.len() == 5 && "macro"@[0] == 'm');
    assert("radio-target"@.len() == 12 && "radio-target"@[0] == 'r');
    assert("target"@.len() == 6 && "target"@[0] == 't');
    assert("special-block"@.len() == 13 && "special-block"@[0] == 's');
    assert("inlinetask"@.len() == 10 && "inlinetask"@[0] == 'i');
    assert("statistics-cookie"@.len() == 17 && "statistics-cookie"@[0] == 's');
    assert("todo-keyword"@.len() == 12 && "todo-keyword"@[0] == 't');
}

/// Metadata elements (drawers, keywords, planning, comments, ...) show
/// nothing of themselves or their children: only their trailing blanks.
pub proof fn law_metadata_hidden(v: Vec<Json>, slugs: Map<Seq<char>, Seq<char>>)
    requires
        v@.len() >= 2,
        as_text(v@[0]) matches Some(ty) && is_metadata_type(ty),
    ensures
        render_spec(Json::Arr(v), slugs) == spaces(post_blank(v@[1])),
{
    let ty = as_text(v@[0]).unwrap();
    lemma_metadata_not_rendered(ty);
    assert(Seq::<char>::empty() + spaces(post_blank(v@[1])) == spaces(post_blank(v@[1])));
}

/// A headline's heading level is always 1 to 6.
pub proof fn law_headline_level(props: Json)
    ensures
        1 <= headline_level(props) <= 6,
        member_u64(props, "level"@) matches Some(l) ==> (1 <= l <= 6 ==> headline_level(props)
            == l),
{
}


/// An entity never writes `<`, `>` or `"`: a proper character reference
/// passes through, anything else is escaped.
pub proof fn law_entity_safe(props: Json)
    ensures
        forall|i: int|
            0 <= i < entity_html(props).len() ==> #[trigger] entity_html(props)[i] != '<'
                && entity_html(props)[i] != '>' && entity_html(props)[i] != '"',
{
    let raw = match member_text(props, "html"@) {
        Some(t) => t,
        None => member_text_or_empty(props, "name"@),
    };
    crate::text::law_escape_no_markup(raw);
    if is_entity_ref(raw) {
        assert forall|i: int| 0 <= i < raw.len() implies #[trigger] raw[i] != '<' && raw[i] != '>'
            && raw[i] != '"' by {
            if 2 <= i < raw.len() - 1 {
                assert(is_ascii_letter(raw[i]) || is_ascii_digit(raw[i]));
            }
        }
    }
}


/// The lengths and first two characters of the element, link and property
/// names, which tell them apart.
proof fn lemma_type_names()
    ensures
        "org-data"@.len() == 8 && "org-data"@[0] == 'o' && "org-data"@[1] == 'r',
        "section"@.len() == 7 && "section"@[0] == 's' && "section"@[1] == 'e',
        "paragraph"@.len() == 9 && "paragraph"@[0] == 'p' && "paragraph"@[1] == 'a',
        "bold"@.len() == 4 && "bold"@[0] == 'b' && "bold"@[1] == 'o',
        "italic"@.len() == 6 && "italic"@[0] == 'i' && "italic"@[1] == 't',
        "underline"@.len() == 9 && "underline"@[0] == 'u' && "underline"@[1] == 'n',
        "strike-through"@.len() == 14 && "strike-through"@[0] == 's' && "strike-through"@[1] == 't',
        "quote-block"@.len() == 11 && "quote-block"@[0] == 'q' && "quote-block"@[1] == 'u',
        "center-block"@.len() == 12 && "center-block"@[0] == 'c' && "center-block"@[1] == 'e',
        "verse-block"@.len() == 11 && "verse-block"@[0] == 'v' && "verse-block"@[1] == 'e',
        "plain-list"@.len() == 10 && "plain-list"@[0] == 'p' && "plain-list"@[1] == 'l',
        "item"@.len() == 4 && "item"@[0] == 'i' && "item"@[1] == 't',
        "table"@.len() == 5 && "table"@[0] == 't' && "table"@[1] == 'a',
        "table-row"@.len() == 9 && "table-row"@[0] == 't' && "table-row"@[1] == 'a',
        "table-cell"@.len() == 10 && "table-cell"@[0] == 't' && "table-cell"@[1] == 'a',
        "headline"@.len() == 8 && "headline"@[0] == 'h' && "headline"@[1] == 'e',
        "verbatim"@.len() == 8 && "verbatim"@[0] == 'v' && "verbatim"@[1] == 'e',
        "code"@.len() == 4 && "code"@[0] == 'c' && "code"@[1] == 'o',
        "src-block"@.len() == 9 && "src-block"@[0] == 's' && "src-block"@[1] == 'r',
        "example-block"@.len() == 13 && "example-block"@[0] == 'e' && "example-block"@[1] == 'x',
        "fixed-width"@.len() == 11 && "fixed-width"@[0] == 'f' && "fixed-width"@[1] == 'i',
        "link"@.len() == 4 && "link"@[0] == 'l' && "link"@[1] == 'i',
        "timestamp"@.len() == 9 && "timestamp"@[0] == 't' && "timestamp"@[1] == 'i',
        "subscript"@.len() == 9 && "subscript"@[0] == 's' && "subscript"@[1] == 'u',
        "superscript"@.len() == 11 && "superscript"@[0] == 's' && "superscript"@[1] == 'u',
        "entity"@.len() == 6 && "entity"@[0] == 'e' && "entity"@[1] == 'n',
        "line-break"@.len() == 10 && "line-break"@[0] == 'l' && "line-break"@[1] == 'i',
        "horizontal-rule"@.len() == 15 && "horizontal-rule"@[0] == 'h' && "horizontal-rule"@[1] == 'o',
        "id"@.len() == 2 && "id"@[0] == 'i' && "id"@[1] == 'd',
        "https"@.len() == 5 && "https"@[0] == 'h' && "https"@[1] == 't',
        "http"@.len() == 4 && "http"@[0] == 'h' && "http"@[1] == 't',
        "file"@.len() == 4 && "file"@[0] == 'f' && "file"@[1] == 'i',
        "on"@.len() == 2 && "on"@[0] == 'o' && "on"@[1] == 'n',
        "off"@.len() == 3 && "off"@[0] == 'o' && "off"@[1] == 'f',
        "trans"@.len() == 5 && "trans"@[0] == 't' && "trans"@[1] == 'r',
        "ordered"@.len() == 7 && "ordered"@[0] == 'o' && "ordered"@[1] == 'r',
        "rule"@.len() == 4 && "rule"@[0] == 'r' && "rule"@[1] == 'u',
{
    reveal_strlit("org-data");
    reveal_strlit("section");
    reveal_strlit("paragraph");
    reveal_strlit("bold");
    reveal_strlit("italic");
    reveal_strlit("underline");
    reveal_strlit("strike-through");
    reveal_strlit("quote-block");
    reveal_strlit("center-block");
    reveal_strlit("verse-block");
    reveal_strlit("plain-list");
    reveal_strlit("item");
    reveal_strlit("table");
    reveal_strlit("table-row");
    reveal_strlit("table-cell");
    reveal_strlit("headline");
    reveal_strlit("verbatim");
    reveal_strlit("code");
    reveal_strlit("src-block");
    reveal_strlit("example-block");
    reveal_strlit("fixed-width");
    reveal_strlit("link");
    reveal_strlit("timestamp");
    reveal_strlit("subscript");
    reveal_strlit("superscript");
    reveal_strlit("entity");
    reveal_strlit("line-break");
    reveal_strlit("horizontal-rule");
    reveal_strlit("id");
    reveal_strlit("https");
    reveal_strlit("http");
    reveal_strlit("file");
    reveal_strlit("on");
    reveal_strlit("off");
    reveal_strlit("trans");
    reveal_strlit("ordered");
    reveal_strlit("rule");
    assert("org-data"@.len() == 8 && "org-data"@[0] == 'o' && "org-data"@[1] == 'r');
    assert("section"@.len() == 7 && "section"@[0] == 's' && "section"@[1] == 'e');
    assert("paragraph"@.len() == 9 && "paragraph"@[0] == 'p' && "paragraph"@[1] == 'a');
    assert("bold"@.len() == 4 && "bold"@[0] == 'b' && "bold"@[1] == 'o');
    assert("italic"@.len() == 6 && "italic"@[0] == 'i' && "italic"@[1] == 't');
    assert("underline"@.len() == 9 && "underline"@[0] == 'u' && "underline"@[1] == 'n');
    assert("strike-through"@.len() == 14 && "strike-through"@[0] == 's' && "strike-through"@[1] == 't');
    assert("quote-block"@.len() == 11 && "quote-block"@[0] == 'q' && "quote-block"@[1] == 'u');
    assert("center-block"@.len() == 12 && "center-block"@[0] == 'c' && "center-block"@[1] == 'e');
    assert("verse-block"@.len() == 11 && "verse-block"@[0] == 'v' && "verse-block"@[1] == 'e');
    assert("plain-list"@.len() == 10 && "plain-list"@[0] == 'p' && "plain-list"@[1] == 'l');
    assert("item"@.len() == 4 && "item"@[0] == 'i' && "item"@[1] == 't');
    assert("table"@.len() == 5 && "table"@[0] == 't' && "table"@[1] == 'a');
    assert("table-row"@.len() == 9 && "table-row"@[0] == 't' && "table-row"@[1] == 'a');
    assert("table-cell"@.len() == 10 && "table-cell"@[0] == 't' && "table-cell"@[1] == 'a');
    assert("headline"@.len() == 8 && "headline"@[0] == 'h' && "headline"@[1] == 'e');
    assert("verbatim"@.len() == 8 && "verbatim"@[0] == 'v' && "verbatim"@[1] == 'e');
    assert("code"@.len() == 4 && "code"@[0] == 'c' && "code"@[1] == 'o');
    assert("src-block"@.len() == 9 && "src-block"@[0] == 's' && "src-block"@[1] == 'r');
    assert("example-block"@.len() == 13 && "example-block"@[0] == 'e' && "example-block"@[1] == 'x');
    assert("fixed-width"@.len() == 11 && "fixed-width"@[0] == 'f' && "fixed-width"@[1] == 'i');
    assert("link"@.len() == 4 && "link"@[0] == 'l' && "link"@[1] == 'i');
    assert("timestamp"@.len() == 9 && "timestamp"@[0] == 't' && "timestamp"@[1] == 'i');
    assert("subscript"@.len() == 9 && "subscript"@[0] == 's' && "subscript"@[1] == 'u');
    assert("superscript"@.len() == 11 && "superscript"@[0] == 's' && "superscript"@[1] == 'u');
    assert("entity"@.len() == 6 && "entity"@[0] == 'e' && "entity"@[1] == 'n');
    assert("line-break"@.len() == 10 && "line-break"@[0] == 'l' && "line-break"@[1] == 'i');
    assert("horizontal-rule"@.len() == 15 && "horizontal-rule"@[0] == 'h' && "horizontal-rule"@[1] == 'o');
    assert("id"@.len() == 2 && "id"@[0] == 'i' && "id"@[1] == 'd');
    assert("https"@.len() == 5 && "https"@[0] == 'h' && "https"@[1] == 't');
    assert("http"@.len() == 4 && "http"@[0] == 'h' && "http"@[1] == 't');
    assert("file"@.len() == 4 && "file"@[0] == 'f' && "file"@[1] == 'i');
    assert("on"@.len() == 2 && "on"@[0] == 'o' && "on"@[1] == 'n');
    assert("off"@.len() == 3 && "off"@[0] == 'o' && "off"@[1] == 'f');
    assert("trans"@.len() == 5 && "trans"@[0] == 't' && "trans"@[1] == 'r');
    assert("ordered"@.len() == 7 && "ordered"@[0] == 'o' && "ordered"@[1] == 'r');
    assert("rule"@.len() == 4 && "rule"@[0] == 'r' && "rule"@[1] == 'u');
}

/// A source block shows its code only escaped, with or without a language:
/// `<pre><code>` (or `<pre><code class="language-L">` for language `L`),
/// then the HTML escape of its `value`, then `</code></pre>` and a newline,
/// then its trailing blanks. The code part never holds `<`, `>` or `"`.
pub proof fn law_src_block_escaped(v: Vec<Json>, slugs: Map<Seq<char>, Seq<char>>)
    requires
        v@.len() >= 2,
        as_text(v@[0]) == Some("src-block"@),
    ensures
        ({
            let props = v@[1];
            let lang = member_text_or_empty(props, "language"@);
            let code = escape_seq(member_text_or_empty(props, "value"@));
            let open = if lang.len() == 0 {
                "<pre><code>"@
            } else {
                "<pre><code class=\"language-"@ + lang + "\">"@
            };
            &&& render_spec(Json::Arr(v), slugs) == open + code + "</code></pre>\n"@ + spaces(
                post_blank(props),
            )
            &&& forall|i: int|
                0 <= i < code.len() ==> #[trigger] code[i] != '<' && code[i] != '>' && code[i] != '"'
        }),
{
    lemma_type_names();
    crate::text::law_escape_no_markup(member_text_or_empty(v@[1], "value"@));
}

/// A link shows what its children render to as its text, whatever its type;
/// only a link without children shows its escaped raw link instead. An
/// `http`/`https` link points at its raw link, an `id` link at the slug of
/// the node it names (the UUID itself where no slug is known), a `file` link
/// is a span, and any other link is its text alone; its trailing blanks
/// follow.
pub proof fn law_link_text(v: Vec<Json>, slugs: Map<Seq<char>, Seq<char>>)
    requires
        v@.len() >= 2,
        as_text(v@[0]) == Some("link"@),
    ensures
        ({
            let props = v@[1];
            let kids = v@.subrange(2, v@.len() as int);
            let raw = member_text_or_empty(props, "raw-link"@);
            let path = member_text_or_empty(props, "path"@);
            let ty = member_text_or_empty(props, "type"@);
            let text = if kids.len() == 0 {
                escape_seq(raw)
            } else {
                render_seq(kids, slugs)
            };
            let html = render_spec(Json::Arr(v), slugs);
            let tail = spaces(post_blank(props));
            &&& (ty == "https"@ || ty == "http"@) ==> html == "<a href=\""@ + raw + "\">"@ + text
                + "</a>"@ + tail
            &&& ty == "id"@ ==> html == "<a href=\"/"@ + (if slugs.dom().contains(path) {
                slugs[path]
            } else {
                path
            }) + "\">"@ + text + "</a>"@ + tail
            &&& ty == "file"@ ==> html == "<span class=\"file-link\">"@ + text + "</span>"@ + tail
            &&& !(ty == "id"@ || ty == "https"@ || ty == "http"@ || ty == "file"@) ==> html == text
                + tail
        }),
{
    lemma_type_names();
}

/// `v` is an element (`[type, props, child...]`) of type `ty`.
pub open spec fn typed(v: Vec<Json>, ty: Seq<char>) -> bool {
    v@.len() >= 2 && as_text(v@[0]) == Some(ty)
}

/// The wrapping elements put their tags around what their children render
/// to, in order, and add nothing else but their trailing blanks; a
/// paragraph drops the white space at the end of its text.
pub proof fn law_wrapping_elements(v: Vec<Json>, slugs: Map<Seq<char>, Seq<char>>)
    requires
        v@.len() >= 2,
    ensures
        ({
            let inner = render_seq(v@.subrange(2, v@.len() as int), slugs);
            let html = render_spec(Json::Arr(v), slugs);
            let tail = spaces(post_blank(v@[1]));
            &&& (typed(v, "org-data"@) || typed(v, "section"@)) ==> html == inner + tail
            &&& typed(v, "paragraph"@) ==> html == "<p>"@ + trim_end_seq(inner) + "</p>\n"@ + tail
            &&& typed(v, "bold"@) ==> html == "<strong>"@ + inner + "</strong>"@ + tail
            &&& typed(v, "italic"@) ==> html == "<em>"@ + inner + "</em>"@ + tail
            &&& typed(v, "underline"@) ==> html == "<u>"@ + inner + "</u>"@ + tail
            &&& typed(v, "strike-through"@) ==> html == "<del>"@ + inner + "</del>"@ + tail
            &&& typed(v, "quote-block"@) ==> html == "<blockquote>\n"@ + inner + "\n</blockquote>\n"@
                + tail
            &&& typed(v, "center-block"@) ==> html == "<div class=\"center\">"@ + inner
                + "\n</div>\n"@ + tail
            &&& typed(v, "verse-block"@) ==> html == "<pre class=\"verse\">"@ + inner + "</pre>\n"@
                + tail
            &&& typed(v, "table"@) ==> html == "<table>\n"@ + inner + "</table>\n"@ + tail
            &&& typed(v, "table-cell"@) ==> html == "<td>"@ + inner + "</td>"@ + tail
            &&& typed(v, "subscript"@) ==> html == "_"@ + inner + tail
            &&& typed(v, "superscript"@) ==> html == "^"@ + inner + tail
        }),
{
    lemma_type_names();
}

/// Lists and tables: a list is `<ol>` where its `type` is `ordered` and
/// `<ul>` otherwise; an item is `<li>`, led by a disabled checkbox that is
/// checked for `on` and unchecked for `off` and `trans` (none otherwise); a
/// table row is `<tr>`, except a rule row, which shows nothing but its
/// trailing blanks.
pub proof fn law_lists_and_rows(v: Vec<Json>, slugs: Map<Seq<char>, Seq<char>>)
    requires
        v@.len() >= 2,
    ensures
        ({
            let props = v@[1];
            let inner = render_seq(v@.subrange(2, v@.len() as int), slugs);
            let html = render_spec(Json::Arr(v), slugs);
            let tail = spaces(post_blank(props));
            let kind = member_text(props, "type"@);
            let cb = member_text(props, "checkbox"@);
            &&& typed(v, "plain-list"@) && kind == Some("ordered"@) ==> html == "<ol>\n"@ + inner
                + "</ol>\n"@ + tail
            &&& typed(v, "plain-list"@) && kind != Some("ordered"@) ==> html == "<ul>\n"@ + inner
                + "</ul>\n"@ + tail
            &&& typed(v, "item"@) && cb == Some("on"@) ==> html
                == "<li>"@ + "<input type=\"checkbox\" checked disabled> "@ + inner + "</li>\n"@ + tail
            &&& typed(v, "item"@) && (cb == Some("off"@) || cb == Some("trans"@)) ==> html
                == "<li>"@ + "<input type=\"checkbox\" disabled> "@ + inner + "</li>\n"@ + tail
            &&& typed(v, "item"@) && !(cb == Some("on"@) || cb == Some("off"@) || cb == Some(
                "trans"@,
            )) ==> html == "<li>"@ + inner + "</li>\n"@ + tail
            &&& typed(v, "table-row"@) && kind == Some("rule"@) ==> html == tail
            &&& typed(v, "table-row"@) && kind != Some("rule"@) ==> html == "<tr>"@ + inner
                + "\n</tr>\n"@ + tail
        }),
{
    lemma_type_names();
    let inner = render_seq(v@.subrange(2, v@.len() as int), slugs);
    assert(Seq::<char>::empty() + spaces(post_blank(v@[1])) == spaces(post_blank(v@[1])));
    assert("<li>"@ + Seq::<char>::empty() + inner == "<li>"@ + inner);
}

/// Elements whose HTML comes from a property show that property only
/// escaped: verbatim and code as `<code>`, example blocks and fixed-width
/// text as `<pre><code>`, timestamps as `<time>` around their raw value;
/// line breaks and rules are `<br>` and `<hr>`. The children of these
/// elements are not shown.
pub proof fn law_leaf_elements(v: Vec<Json>, slugs: Map<Seq<char>, Seq<char>>)
    requires
        v@.len() >= 2,
    ensures
        ({
            let props = v@[1];
            let value = escape_seq(member_text_or_empty(props, "value"@));
            let html = render_spec(Json::Arr(v), slugs);
            let tail = spaces(post_blank(props));
            &&& (typed(v, "verbatim"@) || typed(v, "code"@)) ==> html == "<code>"@ + value
                + "</code>"@ + tail
            &&& (typed(v, "example-block"@) || typed(v, "fixed-width"@)) ==> html
                == "<pre><code>"@ + value + "</code></pre>\n"@ + tail
            &&& typed(v, "timestamp"@) ==> html == "<time>"@ + escape_seq(
                member_text_or_empty(props, "raw-value"@),
            ) + "</time>"@ + tail
            &&& typed(v, "line-break"@) ==> html == "<br>\n"@ + tail
            &&& typed(v, "horizontal-rule"@) ==> html == "<hr>\n"@ + tail
        }),
{
    lemma_type_names();
}

/// A headline is `<hN>` around its rendered title, `N` its level clamped
/// to 1..=6 (1 where it has none), followed by what its children render to.
pub proof fn law_headline_html(v: Vec<Json>, slugs: Map<Seq<char>, Seq<char>>)
    requires
        typed(v, "headline"@),
    ensures
        ({
            let props = v@[1];
            let l = match member_u64(props, "level"@) {
                Some(n) => if n < 1 {
                    1
                } else if n > 6 {
                    6
                } else {
                    n
                },
                None => 1,
            };
            let d = seq![
                if l == 1 {
                    '1'
                } else if l == 2 {
                    '2'
                } else if l == 3 {
                    '3'
                } else if l == 4 {
                    '4'
                } else if l == 5 {
                    '5'
                } else {
                    '6'
                },
            ];
            &&& 1 <= l <= 6
            &&& render_spec(Json::Arr(v), slugs) == "<h"@ + d + ">"@ + title_html(props, slugs)
                + "</h"@ + d + ">\n"@ + render_seq(v@.subrange(2, v@.len() as int), slugs) + spaces(
                post_blank(props),
            )
        }),
{
    lemma_type_names();
}

/// An entity whose `html` (else `name`) text `raw` is a proper character
/// reference (`&` and an ASCII letter followed by ASCII letters and digits,
/// or `&#` and ASCII digits, then `;`) is shown as it is.
pub proof fn law_entity_passthrough(v: Vec<Json>, slugs: Map<Seq<char>, Seq<char>>, raw: Seq<char>)
    requires
        typed(v, "entity"@),
        raw == match member_text(v@[1], "html"@) {
            Some(t) => t,
            None => member_text_or_empty(v@[1], "name"@),
        },
        raw.len() >= 3,
        raw[0] == '&',
        raw.last() == ';',
        (is_ascii_letter(raw[1]) && forall|i: int|
            2 <= i < raw.len() - 1 ==> is_ascii_letter(#[trigger] raw[i]) || is_ascii_digit(raw[i]))
            || (raw[1] == '#' && raw.len() >= 4 && forall|i: int|
            2 <= i < raw.len() - 1 ==> is_ascii_digit(#[trigger] raw[i])),
    ensures
        render_spec(Json::Arr(v), slugs) == raw + spaces(post_blank(v@[1])),
{
    lemma_type_names();
    assert(is_entity_ref(raw));
}

/// An entity whose `html` (else `name`) text `raw` is not of that form is
/// shown escaped.
pub proof fn law_entity_escaped(v: Vec<Json>, slugs: Map<Seq<char>, Seq<char>>, raw: Seq<char>)
    requires
        typed(v, "entity"@),
        raw == match member_text(v@[1], "html"@) {
            Some(t) => t,
            None => member_text_or_empty(v@[1], "name"@),
        },
        !(raw.len() >= 3 && raw[0] == '&' && raw.last() == ';' && ((is_ascii_letter(raw[1])
            && forall|i: int|
            2 <= i < raw.len() - 1 ==> is_ascii_letter(#[trigger] raw[i]) || is_ascii_digit(raw[i]))
            || (raw[1] == '#' && raw.len() >= 4 && forall|i: int|
            2 <= i < raw.len() - 1 ==> is_ascii_digit(#[trigger] raw[i])))),
    ensures
        render_spec(Json::Arr(v), slugs) == escape_seq(raw) + spaces(post_blank(v@[1])),
{
    lemma_type_names();
    assert(!is_entity_ref(raw));
}

/// Children render one after the other: the HTML of a run of nodes is
/// the HTML of its first part followed by that of the rest.
pub proof fn law_render_seq_concat(a: Seq<Json>, b: Seq<Json>, slugs: Map<Seq<char>, Seq<char>>)
    ensures
        render_seq(a + b, slugs) == render_seq(a, slugs) + render_seq(b, slugs),
    decreases b.len(),
{
    if b.len() == 0 {
        assert(a + b =~= a);
        assert(render_seq(a, slugs) + Seq::<char>::empty() =~= render_seq(a, slugs));
    } else {
        assert((a + b).drop_last() =~= a + b.drop_last());
        law_render_seq_concat(a, b.drop_last(), slugs);
    }
}

/// The metadata elements (drawers, properties, keywords, planning,
/// comments, clocks, blocks for export or evaluation, macros, targets,
/// inline tasks, statistics cookies and TODO keywords) show nothing but
/// their trailing blanks.
pub proof fn law_metadata_names_hidden(v: Vec<Json>, ty: Seq<char>, slugs: Map<Seq<char>, Seq<char>>)
    requires
        v@.len() >= 2,
        as_text(v@[0]) == Some(ty),
        ty == "property-drawer"@
        || ty == "node-property"@
        || ty == "keyword"@
        || ty == "planning"@
        || ty == "comment"@
        || ty == "comment-block"@
        || ty == "clock"@
        || ty == "drawer"@
        || ty == "babel-call"@
        || ty == "diary-sexp"@
        || ty == "dynamic-block"@
        || ty == "export-block"@
        || ty == "export-snippet"@
        || ty == "inline-babel-call"@
        || ty == "macro"@
        || ty == "radio-target"@
        || ty == "target"@
        || ty == "special-block"@
        || ty == "inlinetask"@
        || ty == "statistics-cookie"@
        || ty == "todo-keyword"@,
    ensures
        render_spec(Json::Arr(v), slugs) == spaces(post_blank(v@[1])),
{
    law_metadata_hidden(v, slugs);
}

/// An element of a type the renderer does not know shows what its children
/// render to, with no wrapper, then its trailing blanks.
pub proof fn law_unknown_renders_children(v: Vec<Json>, ty: Seq<char>, slugs: Map<Seq<char>, Seq<char>>)
    requires
        v@.len() >= 2,
        as_text(v@[0]) == Some(ty),
        !crate::unknown::named_known_type(ty),
    ensures
        render_spec(Json::Arr(v), slugs) == render_seq(v@.subrange(2, v@.len() as int), slugs)
            + spaces(post_blank(v@[1])),
{
    reveal_strlit("property-drawer");
    reveal_strlit("node-property");
    reveal_strlit("keyword");
    reveal_strlit("planning");
    reveal_strlit("comment");
    reveal_strlit("comment-block");
    reveal_strlit("clock");
    reveal_strlit("drawer");
    reveal_strlit("babel-call");
    reveal_strlit("diary-sexp");
    reveal_strlit("dynamic-block");
    reveal_strlit("export-block");
    reveal_strlit("export-snippet");
    reveal_strlit("inline-babel-call");
    reveal_strlit("macro");
    reveal_strlit("radio-target");
    reveal_strlit("target");
    reveal_strlit("special-block");
    reveal_strlit("inlinetask");
    reveal_strlit("statistics-cookie");
    reveal_strlit("todo-keyword");
    reveal_strlit("org-data");
    reveal_strlit("section");
    reveal_strlit("paragraph");
    reveal_strlit("bold");
    reveal_strlit("italic");
    reveal_strlit("underline");
    reveal_strlit("strike-through");
    reveal_strlit("quote-block");
    reveal_strlit("center-block");
    reveal_strlit("verse-block");
    reveal_strlit("plain-list");
    reveal_strlit("item");
    reveal_strlit("table");
    reveal_strlit("table-row");
    reveal_strlit("table-cell");
    reveal_strlit("headline");
    reveal_strlit("verbatim");
    reveal_strlit("code");
    reveal_strlit("src-block");
    reveal_strlit("example-block");
    reveal_strlit("fixed-width");
    reveal_strlit("link");
    reveal_strlit("timestamp");
    reveal_strlit("subscript");
    reveal_strlit("superscript");
    reveal_strlit("entity");
    reveal_strlit("line-break");
    reveal_strlit("horizontal-rule");
}

/// A headline's title is what its `title` member renders to where that is
/// an array of nodes, and nothing otherwise.
pub proof fn law_title_html(props: Json, slugs: Map<Seq<char>, Seq<char>>)
    ensures
        title_html(props, slugs) == match crate::json::get_member(props, "title"@) {
            Some(Json::Arr(t)) => render_seq(t@, slugs),
            _ => Seq::<char>::empty(),
        },
{
    if let Json::Obj(members) = props {
        crate::json::law_member_lookup(members@, "title"@);
    }
}

/// Trailing blanks: an element is followed by as many spaces as its
/// `post-blank` says (none where it has none).
pub proof fn law_post_blank(props: Json)
    ensures
        member_u64(props, "post-blank"@) is None ==> spaces(post_blank(props)).len() == 0,
        member_u64(props, "post-blank"@) matches Some(n) ==> n <= usize::MAX ==> spaces(
            post_blank(props),
        ).len() == n,
        forall|i: int| 0 <= i < spaces(post_blank(props)).len() ==> #[trigger] spaces(
            post_blank(props),
        )[i] == ' ',
{
}

} // verus!
