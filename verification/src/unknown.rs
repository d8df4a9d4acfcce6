//! The element types that the renderer meets but does not know. Such an
//! element renders its children with no wrapper; the types are listed so
//! that they can be reported, in the order rendering meets them.

use vstd::prelude::*;

use crate::json::{as_text, find_text, member_position, member_index, member_text, Json};
use crate::render::{is_metadata, is_metadata_type};
use crate::slug::texts;
use crate::text::str_is;

verus! {

broadcast use vstd::string::group_string_axioms;

/// The element types that have an HTML form of their own.
pub open spec fn is_rendered_type(ty: Seq<char>) -> bool {
    ||| ty == "org-data"@
    ||| ty == "section"@
    ||| ty == "paragraph"@
    ||| ty == "bold"@
    ||| ty == "italic"@
    ||| ty == "underline"@
    ||| ty == "strike-through"@
    ||| ty == "quote-block"@
    ||| ty == "center-block"@
    ||| ty == "verse-block"@
    ||| ty == "plain-list"@
    ||| ty == "item"@
    ||| ty == "table"@
    ||| ty == "table-row"@
    ||| ty == "table-cell"@
    ||| ty == "headline"@
    ||| ty == "verbatim"@
    ||| ty == "code"@
    ||| ty == "src-block"@
    ||| ty == "example-block"@
    ||| ty == "fixed-width"@
    ||| ty == "link"@
    ||| ty == "timestamp"@
    ||| ty == "subscript"@
    ||| ty == "superscript"@
    ||| ty == "entity"@
    ||| ty == "line-break"@
    ||| ty == "horizontal-rule"@
}

/// The element types that render without a report: those with an HTML form
/// and the metadata types.
pub open spec fn is_known_type(ty: Seq<char>) -> bool {
    is_rendered_type(ty) || is_metadata_type(ty)
}

/// The element types whose HTML comes from their properties alone.
pub open spec fn is_leaf_type(ty: Seq<char>) -> bool {
    ||| ty == "verbatim"@
    ||| ty == "code"@
    ||| ty == "src-block"@
    ||| ty == "example-block"@
    ||| ty == "fixed-width"@
    ||| ty == "timestamp"@
    ||| ty == "entity"@
    ||| ty == "line-break"@
    ||| ty == "horizontal-rule"@
}

/// Whether an element of type `ty` with properties `props` renders its
/// children: all but the leaf and metadata types and the rule rows of a
/// table.
pub open spec fn renders_children(ty: Seq<char>, props: Json) -> bool {
    !is_leaf_type(ty) && !is_metadata_type(ty) && !(ty == "table-row"@ && member_text(
        props,
        "type"@,
    ) == Some("rule"@))
}

/// The unknown element types of a node, in the order rendering meets them:
/// the element's own type (an element whose type is not text has the empty
/// type), then those of a headline's title, then those of the children that
/// the element renders.
pub open spec fn unknown_types(node: Json) -> Seq<Seq<char>>
    decreases node,
{
    match node {
        Json::Arr(v) => {
            if v@.len() >= 2 {
                let ty = match as_text(v@[0]) {
                    Some(t) => t,
                    None => Seq::empty(),
                };
                let own = if is_known_type(ty) {
                    Seq::empty()
                } else {
                    seq![ty]
                };
                let title = if ty == "headline"@ {
                    title_unknowns(v@[1])
                } else {
                    Seq::empty()
                };
                let kids = if renders_children(ty, v@[1]) {
                    unknown_seq(v@.subrange(2, v@.len() as int))
                } else {
                    Seq::empty()
                };
                own + title + kids
            } else {
                Seq::empty()
            }
        },
        _ => Seq::empty(),
    }
}

/// The unknown element types of a sequence of nodes, one after the other.
pub open spec fn unknown_seq(s: Seq<Json>) -> Seq<Seq<char>>
    decreases s,
{
    if s.len() == 0 {
        Seq::empty()
    } else {
        unknown_seq(s.drop_last()) + unknown_types(s.last())
    }
}

/// The unknown element types of a headline's `title` (an array of nodes).
pub open spec fn title_unknowns(props: Json) -> Seq<Seq<char>>
    decreases props,
{
    match props {
        Json::Obj(members) => match member_index(members@, "title"@) {
            Some(i) => {
                if 0 <= i < members@.len() {
                    match members@[i].1 {
                        Json::Arr(t) => unknown_seq(t@),
                        _ => Seq::empty(),
                    }
                } else {
                    Seq::empty()
                }
            },
            None => Seq::empty(),
        },
        _ => Seq::empty(),
    }
}

fn is_rendered(ty: &str) -> (r: bool)
    ensures
        r == is_rendered_type(ty@),
{
    str_is(ty, "org-data") || str_is(ty, "section") || str_is(ty, "paragraph") || str_is(
        ty,
        "bold",
    ) || str_is(ty, "italic") || str_is(ty, "underline") || str_is(ty, "strike-through")
        || str_is(ty, "quote-block") || str_is(ty, "center-block") || str_is(ty, "verse-block")
        || str_is(ty, "plain-list") || str_is(ty, "item") || str_is(ty, "table") || str_is(
        ty,
        "table-row",
    ) || str_is(ty, "table-cell") || str_is(ty, "headline") || str_is(ty, "verbatim")
        || str_is(ty, "code") || str_is(ty, "src-block") || str_is(ty, "example-block")
        || str_is(ty, "fixed-width") || str_is(ty, "link") || str_is(ty, "timestamp")
        || str_is(ty, "subscript") || str_is(ty, "superscript") || str_is(ty, "entity")
        || str_is(ty, "line-break") || str_is(ty, "horizontal-rule")
}

fn has_children_rendered(ty: &str, props: &Json) -> (r: bool)
    ensures
        r == renders_children(ty@, *props),
{
    let leaf = str_is(ty, "verbatim") || str_is(ty, "code") || str_is(ty, "src-block") || str_is(
        ty,
        "example-block",
    ) || str_is(ty, "fixed-width") || str_is(ty, "timestamp") || str_is(ty, "entity") || str_is(
        ty,
        "line-break",
    ) || str_is(ty, "horizontal-rule");
    let rule = str_is(ty, "table-row") && match find_text(props, "type") {
        Some(t) => str_is(t, "rule"),
        None => false,
    };
    !leaf && !is_metadata(ty) && !rule
}

/// Appends the unknown element types of `v[from..]`.
fn collect_children(v: &Vec<Json>, from: usize, out: &mut Vec<String>)
    requires
        from <= v@.len(),
    ensures
        texts(final(out)@) == texts(old(out)@) + unknown_seq(
            v@.subrange(from as int, v@.len() as int),
        ),
    decreases v, 1nat,
{
    let ghost start = texts(out@);
    let n = v.len();
    let mut i = from;
    proof {
        assert(start + unknown_seq(v@.subrange(from as int, from as int)) == start);
    }
    while i < n
        invariant
            from <= i <= n,
            n == v@.len(),
            texts(out@) == start + unknown_seq(v@.subrange(from as int, i as int)),
        decreases n - i,
    {
        proof {
            assert(decreases_to!(v => v@[i as int]));
        }
        collect_node(&v[i], out);
        i = i + 1;
        proof {
            let s = v@.subrange(from as int, i as int);
            assert(s.drop_last() == v@.subrange(from as int, i - 1));
            assert(s.last() == v@[i - 1]);
        }
    }
}

/// Appends the unknown element types of a headline's `title`.
fn collect_title(props: &Json, out: &mut Vec<String>)
    ensures
        texts(final(out)@) == texts(old(out)@) + title_unknowns(*props),
    decreases props, 1nat,
{
    match props {
        Json::Obj(members) => match member_position(members, "title") {
            Some(i) => match &members[i].1 {
                Json::Arr(t) => {
                    proof {
                        assert(t@.subrange(0, t@.len() as int) == t@);
                        assert(decreases_to!(members => members@[i as int]));
                    }
                    collect_children(t, 0, out);
                },
                _ => {
                    proof {
                        assert(texts(out@) + Seq::<Seq<char>>::empty() == texts(out@));
                    }
                },
            },
            None => {
                proof {
                    assert(texts(out@) + Seq::<Seq<char>>::empty() == texts(out@));
                }
            },
        },
        _ => {
            proof {
                assert(texts(out@) + Seq::<Seq<char>>::empty() == texts(out@));
            }
        },
    }
}

/// Appends the unknown element types of `node` (see `unknown_types`).
fn collect_node(node: &Json, out: &mut Vec<String>)
    ensures
        texts(final(out)@) == texts(old(out)@) + unknown_types(*node),
    decreases node, 3nat,
{
    let ghost start = texts(out@);
    match node {
        Json::Arr(v) => {
            if v.len() >= 2 {
                let ty: &str = match &v[0] {
                    Json::Str(t) => t.as_str(),
                    _ => {
                        proof {
                            reveal_strlit("");
                            assert(""@ =~= Seq::<char>::empty());
                        }
                        ""
                    },
                };
                let props = &v[1];
                let known = is_rendered(ty) || is_metadata(ty);
                if !known {
                    let ghost before = out@;
                    out.push(String::from_str(ty));
                    proof {
                        assert(texts(out@) == texts(before).push(ty@));
                    }
                }
                let ghost own = if is_known_type(ty@) {
                    Seq::<Seq<char>>::empty()
                } else {
                    seq![ty@]
                };
                assert(texts(out@) == start + own);
                let ghost mid = texts(out@);
                if str_is(ty, "headline") {
                    collect_title(props, out);
                } else {
                    proof {
                        assert(mid + Seq::<Seq<char>>::empty() == mid);
                    }
                }
                let ghost title = if ty@ == "headline"@ {
                    title_unknowns(v@[1])
                } else {
                    Seq::<Seq<char>>::empty()
                };
                assert(texts(out@) == mid + title);
                let ghost mid2 = texts(out@);
                if has_children_rendered(ty, props) {
                    collect_children(v, 2, out);
                } else {
                    proof {
                        assert(mid2 + Seq::<Seq<char>>::empty() == mid2);
                    }
                }
            } else {
                proof {
                    assert(start + Seq::<Seq<char>>::empty() == start);
                }
            }
        },
        _ => {
            proof {
                assert(start + Seq::<Seq<char>>::empty() == start);
            }
        },
    }
}

/// The element types of `ast` that the renderer does not know, in the order
/// rendering meets them (one entry per element, repeats kept).
pub fn unknown_element_types(ast: &Json) -> (r: Vec<String>)
    ensures
        texts(r@) == unknown_types(*ast),
{
    let mut out: Vec<String> = Vec::new();
    proof {
        assert(texts(out@) == Seq::<Seq<char>>::empty());
        assert(Seq::<Seq<char>>::empty() + unknown_types(*ast) == unknown_types(*ast));
    }
    collect_node(ast, &mut out);
    out
}

/// The element types that the renderer knows, named one by one.
pub open spec fn named_known_type(ty: Seq<char>) -> bool {
    ty == "org-data"@
    || ty == "section"@
    || ty == "paragraph"@
    || ty == "bold"@
    || ty == "italic"@
    || ty == "underline"@
    || ty == "strike-through"@
    || ty == "quote-block"@
    || ty == "center-block"@
    || ty == "verse-block"@
    || ty == "plain-list"@
    || ty == "item"@
    || ty == "table"@
    || ty == "table-row"@
    || ty == "table-cell"@
    || ty == "headline"@
    || ty == "verbatim"@
    || ty == "code"@
    || ty == "src-block"@
    || ty == "example-block"@
    || ty == "fixed-width"@
    || ty == "link"@
    || ty == "timestamp"@
    || ty == "subscript"@
    || ty == "superscript"@
    || ty == "entity"@
    || ty == "line-break"@
    || ty == "horizontal-rule"@
    || ty == "property-drawer"@
    || ty == "node-property"@
    || ty == "keyword"@
    || ty == "planning"@
    || ty == "comment"@
    || ty == "comment-block"@
    || ty == "clock"@
    || ty == "drawer"@
    || ty == "babel-call"@
    || ty == "diary-sexp"@
    || ty == "dynamic-block"@
    || ty == "export-block"@
    || ty == "export-snippet"@
    || ty == "inline-babel-call"@
    || ty == "macro"@
    || ty == "radio-target"@
    || ty == "target"@
    || ty == "special-block"@
    || ty == "inlinetask"@
    || ty == "statistics-cookie"@
    || ty == "todo-keyword"@
}

/// An element whose type is none of the known ones is reported, and then
/// the unknown types of its children follow, in order (its children are
/// rendered).
pub proof fn law_unknown_reported(v: Vec<Json>, ty: Seq<char>)
    requires
        v@.len() >= 2,
        as_text(v@[0]) == Some(ty),
        !named_known_type(ty),
    ensures
        unknown_types(Json::Arr(v)) == seq![ty] + unknown_seq(v@.subrange(2, v@.len() as int)),
{
    lemma_known_names(ty);
}

/// Elements whose HTML comes from their properties, and metadata elements,
/// report nothing: their children are not rendered.
pub proof fn law_leaf_and_metadata_silent(v: Vec<Json>, ty: Seq<char>)
    requires
        v@.len() >= 2,
        as_text(v@[0]) == Some(ty),
        ty == "verbatim"@
        || ty == "code"@
        || ty == "src-block"@
        || ty == "example-block"@
        || ty == "fixed-width"@
        || ty == "timestamp"@
        || ty == "entity"@
        || ty == "line-break"@
        || ty == "horizontal-rule"@
        || ty == "property-drawer"@
        || ty == "node-property"@
        || ty == "keyword"@
        || ty == "planning"@
        || ty == "comment"@
        || ty == "comment-block"@
        || ty == "clock"@
        || ty == "drawer"@
        || ty == "babel-call"@
        || ty == "diary-sexp"@
        || ty == "dynamic-block"@
        || ty == "export-block"@
        || ty == "export-snippet"@
        || ty == "inline-babel-call"@
        || ty == "macro"@
        || ty == "radio-target"@
        || ty == "target"@
        || ty == "special-block"@
        || ty == "inlinetask"@
        || ty == "statistics-cookie"@
        || ty == "todo-keyword"@,
    ensures
        unknown_types(Json::Arr(v)) == Seq::<Seq<char>>::empty(),
{
    lemma_known_names(ty);
    reveal_strlit("headline");
    reveal_strlit("verbatim");
    reveal_strlit("code");
    reveal_strlit("src-block");
    reveal_strlit("example-block");
    reveal_strlit("fixed-width");
    reveal_strlit("timestamp");
    reveal_strlit("entity");
    reveal_strlit("line-break");
    reveal_strlit("horizontal-rule");
    reveal_strlit("property-drawer");
    reveal_strlit("node-property");
    reveal_strlit("keyword");
    reveal_strlit("planning");
    reveal_strlit("comment");
    reveal_strlit("comment-block");
    reveal_strlit("clock");
    reveal_strlit("drawer");
    reveal_strlit("babel-call");
    reveal_strlit("diary-sexp");
    reveal_strlit("dynamic-block");
    reveal_strlit("export-block");
    reveal_strlit("export-snippet");
    reveal_strlit("inline-babel-call");
    reveal_strlit("macro");
    reveal_strlit("radio-target");
    reveal_strlit("target");
    reveal_strlit("special-block");
    reveal_strlit("inlinetask");
    reveal_strlit("statistics-cookie");
    reveal_strlit("todo-keyword");
    assert("headline"@[0] == 'h' && "horizontal-rule"@.len() == 15);
    assert(is_known_type(ty));
    assert(!renders_children(ty, v@[1]));
    assert(ty != "headline"@);
    let e = Seq::<Seq<char>>::empty();
    assert(e + e + e =~= e);
}

proof fn lemma_known_names(ty: Seq<char>)
    ensures
        named_known_type(ty) == is_known_type(ty),
        (ty == "verbatim"@
            || ty == "code"@
            || ty == "src-block"@
            || ty == "example-block"@
            || ty == "fixed-width"@
            || ty == "timestamp"@
            || ty == "entity"@
            || ty == "line-break"@
            || ty == "horizontal-rule"@) == is_leaf_type(ty),
{
    reveal_strlit("org-data");
    reveal_strlit("section");
    reveal_strlit("paragraph");
    reveal_strlit("bold");
    reveal_strlit("italic");
    reveal_strlit("underline");
    reveal_strlit("strike-through");
    reveal_strlit("quote-block");
    reveal_strlit("center-block");
    reveal_strlit("verse-block");
    reveal_strlit("plain-list");
    reveal_strlit("item");
    reveal_strlit("table");
    reveal_strlit("table-row");
    reveal_strlit("table-cell");
    reveal_strlit("headline");
    reveal_strlit("verbatim");
    reveal_strlit("code");
    reveal_strlit("src-block");
    reveal_strlit("example-block");
    reveal_strlit("fixed-width");
    reveal_strlit("link");
    reveal_strlit("timestamp");
    reveal_strlit("subscript");
    reveal_strlit("superscript");
    reveal_strlit("entity");
    reveal_strlit("line-break");
    reveal_strlit("horizontal-rule");
    reveal_strlit("property-drawer");
    reveal_strlit("node-property");
    reveal_strlit("keyword");
    reveal_strlit("planning");
    reveal_strlit("comment");
    reveal_strlit("comment-block");
    reveal_strlit("clock");
    reveal_strlit("drawer");
    reveal_strlit("babel-call");
    reveal_strlit("diary-sexp");
    reveal_strlit("dynamic-block");
    reveal_strlit("export-block");
    reveal_strlit("export-snippet");
    reveal_strlit("inline-babel-call");
    reveal_strlit("macro");
    reveal_strlit("radio-target");
    reveal_strlit("target");
    reveal_strlit("special-block");
    reveal_strlit("inlinetask");
    reveal_strlit("statistics-cookie");
    reveal_strlit("todo-keyword");
}

} // verus!
