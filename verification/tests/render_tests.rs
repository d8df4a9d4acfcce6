use renderer::json::Json;
use renderer::map::SlugMap;
use renderer::render::{render_ast, render_node};
use renderer::text::html_escape;
use renderer::timestamp::{
    date_iso_text, datetime_iso_text, extract_last_modified, parse_org_timestamp, timestamp_query,
};
use renderer::unknown::unknown_element_types;

fn text(s: &str) -> Json {
    Json::Str(s.to_string())
}

fn arr(items: Vec<Json>) -> Json {
    Json::Arr(items)
}

fn obj(members: Vec<(&str, Json)>) -> Json {
    Json::Obj(members.into_iter().map(|(k, v)| (k.to_string(), v)).collect())
}

fn num(n: u64) -> Json {
    Json::Num(Some(n))
}

fn empty_slugs() -> SlugMap {
    SlugMap::new()
}

// Render paragraph with plain string
#[test]
fn test_paragraph_plain_string() {
    let node = arr(vec![text("paragraph"), Json::Null, text("Hello world")]);
    let result = render_node(&node, &empty_slugs());
    assert!(result.contains("<p>"), "Expected <p> tag");
    assert!(result.contains("Hello world"), "Expected content");
}

// Render headline level clamping
#[test]
fn test_headline_level_clamping() {
    let node = arr(vec![
        text("headline"),
        obj(vec![("level", num(8)), ("title", arr(vec![text("Deep heading")]))]),
        arr(vec![]),
    ]);
    let result = render_node(&node, &empty_slugs());
    assert!(result.contains("<h6>"), "Expected level clamped to h6");
    assert!(!result.contains("<h8>"), "Must not emit h8");
}

// Render src-block with language
#[test]
fn test_src_block_with_language() {
    let node = arr(vec![
        text("src-block"),
        obj(vec![("language", text("rust")), ("value", text("fn main() {}"))]),
    ]);
    let result = render_node(&node, &empty_slugs());
    assert!(result.contains("language-rust"), "Expected language class");
    assert!(result.contains("<pre>"), "Expected pre tag");
    assert!(result.contains("fn main()"), "Expected code content");
}

// Render internal id link resolves via slug map
#[test]
fn test_id_link_resolves_slug() {
    let mut slugs = SlugMap::new();
    slugs.insert(
        "ABCD1234-0000-0000-0000-000000000000".to_string(),
        "my-node".to_string(),
    );
    let node = arr(vec![
        text("link"),
        obj(vec![
            ("type", text("id")),
            ("raw-link", text("id:ABCD1234-0000-0000-0000-000000000000")),
            ("path", text("ABCD1234-0000-0000-0000-000000000000")),
        ]),
        text("My Node"),
    ]);
    let result = render_node(&node, &slugs);
    assert!(
        result.contains("href=\"/my-node\""),
        "Expected resolved slug URL"
    );
}

// Render external https link
#[test]
fn test_external_https_link() {
    let node = arr(vec![
        text("link"),
        obj(vec![
            ("type", text("https")),
            ("raw-link", text("https://example.com")),
            ("path", text("//example.com")),
        ]),
        text("Example"),
    ]);
    let result = render_node(&node, &empty_slugs());
    assert!(
        result.contains("href=\"https://example.com\""),
        "Expected full https URL"
    );
}

// Render file link as plain text span
#[test]
fn test_file_link_plain_text() {
    let node = arr(vec![
        text("link"),
        obj(vec![
            ("type", text("file")),
            ("raw-link", text("file:/home/user/doc.org")),
            ("path", text("/home/user/doc.org")),
        ]),
        text("doc.org"),
    ]);
    let result = render_node(&node, &empty_slugs());
    assert!(
        !result.contains("<a href"),
        "file links must not produce anchor tags"
    );
    assert!(result.contains("file-link"), "Expected file-link span");
}

// LAST_MODIFIED extraction when present in org-data props
#[test]
fn test_last_modified_from_org_data() {
    let ast = arr(vec![
        text("org-data"),
        obj(vec![("LAST_MODIFIED", text("<2025-12-02 01:25>"))]),
        arr(vec![]),
    ]);
    let result = extract_last_modified(&ast);
    assert_eq!(result, "2025-12-02T01:25:00Z");
}

// LAST_MODIFIED absent returns epoch
#[test]
fn test_last_modified_absent_returns_epoch() {
    let ast = arr(vec![text("org-data"), Json::Null, arr(vec![])]);
    let result = extract_last_modified(&ast);
    assert_eq!(result, "1970-01-01T00:00:00Z");
}

// post-blank on inline elements emits trailing space
#[test]
fn test_post_blank_inline_spacing() {
    let node = arr(vec![
        text("paragraph"),
        Json::Null,
        arr(vec![text("bold"), obj(vec![("post-blank", num(1))]), text("markup")]),
        text("and"),
    ]);
    let result = render_node(&node, &empty_slugs());
    assert!(
        result.contains("<strong>markup</strong> and"),
        "Expected space between </strong> and following text, got: {result}"
    );
}

// Null properties on section must not panic
#[test]
fn test_null_props_section_no_panic() {
    let node = arr(vec![
        text("section"),
        Json::Null,
        arr(vec![text("paragraph"), Json::Null, text("text")]),
    ]);
    let result = render_node(&node, &empty_slugs());
    assert!(result.contains("text"), "Expected children rendered");
}

#[test]
fn html_escape_exact() {
    assert_eq!(
        html_escape("a<b>&\"c\" 'd'"),
        "a&lt;b&gt;&amp;&quot;c&quot; 'd'"
    );
    assert_eq!(html_escape(""), "");
    assert_eq!(html_escape("plain text"), "plain text");
}

#[test]
fn html_escape_concatenates() {
    let a = "x<y";
    let b = "&z\"";
    let joined = format!("{}{}", a, b);
    assert_eq!(html_escape(&joined), format!("{}{}", html_escape(a), html_escape(b)));
}

#[test]
fn text_node_escaped_exactly() {
    let node = text("<script>alert(\"x\")</script>");
    let result = render_node(&node, &empty_slugs());
    assert_eq!(result, "&lt;script&gt;alert(&quot;x&quot;)&lt;/script&gt;");
    assert!(!result.contains('<') && !result.contains('>') && !result.contains('"'));
}

#[test]
fn paragraph_exact_and_trimmed() {
    let node = arr(vec![text("paragraph"), Json::Null, text("Hi \u{a0}\n\t")]);
    assert_eq!(render_node(&node, &empty_slugs()), "<p>Hi</p>\n");
}

#[test]
fn inline_markup_exact() {
    let s = empty_slugs();
    assert_eq!(render_node(&arr(vec![text("bold"), Json::Null, text("b")]), &s), "<strong>b</strong>");
    assert_eq!(render_node(&arr(vec![text("italic"), Json::Null, text("i")]), &s), "<em>i</em>");
    assert_eq!(render_node(&arr(vec![text("underline"), Json::Null, text("u")]), &s), "<u>u</u>");
    assert_eq!(
        render_node(&arr(vec![text("strike-through"), Json::Null, text("s")]), &s),
        "<del>s</del>"
    );
    assert_eq!(render_node(&arr(vec![text("subscript"), Json::Null, text("2")]), &s), "_2");
    assert_eq!(render_node(&arr(vec![text("superscript"), Json::Null, text("3")]), &s), "^3");
    assert_eq!(render_node(&arr(vec![text("line-break"), Json::Null]), &s), "<br>\n");
    assert_eq!(render_node(&arr(vec![text("horizontal-rule"), Json::Null]), &s), "<hr>\n");
}

#[test]
fn blocks_exact() {
    let s = empty_slugs();
    assert_eq!(
        render_node(&arr(vec![text("quote-block"), Json::Null, text("q")]), &s),
        "<blockquote>\nq\n</blockquote>\n"
    );
    assert_eq!(
        render_node(&arr(vec![text("center-block"), Json::Null, text("c")]), &s),
        "<div class=\"center\">c\n</div>\n"
    );
    assert_eq!(
        render_node(&arr(vec![text("verse-block"), Json::Null, text("v")]), &s),
        "<pre class=\"verse\">v</pre>\n"
    );
    assert_eq!(
        render_node(&arr(vec![text("example-block"), obj(vec![("value", text("a<b"))])]), &s),
        "<pre><code>a&lt;b</code></pre>\n"
    );
    assert_eq!(
        render_node(&arr(vec![text("code"), obj(vec![("value", text("x&y"))])]), &s),
        "<code>x&amp;y</code>"
    );
    assert_eq!(
        render_node(&arr(vec![text("src-block"), obj(vec![("value", text("1"))])]), &s),
        "<pre><code>1</code></pre>\n"
    );
    assert_eq!(
        render_node(
            &arr(vec![text("timestamp"), obj(vec![("raw-value", text("<2026-01-16>"))])]),
            &s
        ),
        "<time>&lt;2026-01-16&gt;</time>"
    );
}

#[test]
fn lists_and_tables_exact() {
    let s = empty_slugs();
    let item = |cb: Option<&str>| {
        let props = match cb {
            Some(c) => obj(vec![("checkbox", text(c))]),
            None => Json::Null,
        };
        arr(vec![text("item"), props, text("x")])
    };
    let ordered = arr(vec![
        text("plain-list"),
        obj(vec![("type", text("ordered"))]),
        item(Some("on")),
        item(Some("off")),
        item(Some("trans")),
        item(None),
    ]);
    assert_eq!(
        render_node(&ordered, &s),
        "<ol>\n<li><input type=\"checkbox\" checked disabled> x</li>\n\
         <li><input type=\"checkbox\" disabled> x</li>\n\
         <li><input type=\"checkbox\" disabled> x</li>\n<li>x</li>\n</ol>\n"
    );
    let unordered = arr(vec![text("plain-list"), obj(vec![("type", text("unordered"))]), item(None)]);
    assert_eq!(render_node(&unordered, &s), "<ul>\n<li>x</li>\n</ul>\n");
    let table = arr(vec![
        text("table"),
        Json::Null,
        arr(vec![
            text("table-row"),
            obj(vec![("type", text("standard"))]),
            arr(vec![text("table-cell"), Json::Null, text("a")]),
        ]),
        arr(vec![text("table-row"), obj(vec![("type", text("rule"))])]),
    ]);
    assert_eq!(render_node(&table, &s), "<table>\n<tr><td>a</td>\n</tr>\n</table>\n");
}

#[test]
fn headline_exact() {
    let s = empty_slugs();
    let h = arr(vec![
        text("headline"),
        obj(vec![("title", arr(vec![text("TODO "), arr(vec![text("bold"), Json::Null, text("x")])]))]),
        arr(vec![text("paragraph"), Json::Null, text("body")]),
    ]);
    assert_eq!(
        render_node(&h, &s),
        "<h1>TODO <strong>x</strong></h1>\n<p>body</p>\n"
    );
    let h3 = arr(vec![text("headline"), obj(vec![("level", num(3))])]);
    assert_eq!(render_node(&h3, &s), "<h3></h3>\n");
    let h0 = arr(vec![text("headline"), obj(vec![("level", num(0))])]);
    assert_eq!(render_node(&h0, &s), "<h1></h1>\n");
}

#[test]
fn links_exact() {
    let mut slugs = SlugMap::new();
    slugs.insert("U1".to_string(), "node-one".to_string());
    let link = |ty: &str, raw: &str, path: &str, kids: Vec<Json>| {
        let mut items = vec![
            text("link"),
            obj(vec![("type", text(ty)), ("raw-link", text(raw)), ("path", text(path))]),
        ];
        items.extend(kids);
        arr(items)
    };
    assert_eq!(
        render_node(&link("id", "id:U1", "U1", vec![text("One")]), &slugs),
        "<a href=\"/node-one\">One</a>"
    );
    assert_eq!(
        render_node(&link("id", "id:U2", "U2", vec![]), &slugs),
        "<a href=\"/U2\">id:U2</a>"
    );
    assert_eq!(
        render_node(&link("http", "http://a.b/?x=<1>", "//a.b", vec![]), &slugs),
        "<a href=\"http://a.b/?x=<1>\">http://a.b/?x=&lt;1&gt;</a>"
    );
    assert_eq!(
        render_node(&link("file", "file:x.org", "x.org", vec![]), &slugs),
        "<span class=\"file-link\">file:x.org</span>"
    );
    assert_eq!(
        render_node(&link("fuzzy", "Some Heading", "Some Heading", vec![]), &slugs),
        "Some Heading"
    );
}

#[test]
fn entities_exact() {
    let s = empty_slugs();
    let ent = |props: Json| render_node(&arr(vec![text("entity"), props]), &s);
    assert_eq!(ent(obj(vec![("html", text("&alpha;")), ("name", text("alpha"))])), "&alpha;");
    assert_eq!(ent(obj(vec![("html", text("<b>")), ("name", text("b"))])), "&lt;b&gt;");
    assert_eq!(ent(obj(vec![("name", text("alpha"))])), "alpha");
    assert_eq!(ent(obj(vec![("html", num(1)), ("name", text("&x;"))])), "&x;");
    assert_eq!(ent(Json::Null), "");
}

#[test]
fn entities_escaped_unless_proper_references() {
    let s = empty_slugs();
    let ent = |props: Json| render_node(&arr(vec![text("entity"), props]), &s);
    assert_eq!(ent(obj(vec![("html", text("&<script>;"))])), "&amp;&lt;script&gt;;");
    assert_eq!(ent(obj(vec![("html", text("&#123;"))])), "&#123;");
    assert_eq!(ent(obj(vec![("html", text("&a1b2;"))])), "&a1b2;");
    assert_eq!(ent(obj(vec![("html", text("&;"))])), "&amp;;");
    assert_eq!(ent(obj(vec![("html", text("&#;"))])), "&amp;#;");
    assert_eq!(ent(obj(vec![("html", text("&#12a;"))])), "&amp;#12a;");
    assert_eq!(ent(obj(vec![("html", text("&1a;"))])), "&amp;1a;");
    assert_eq!(ent(obj(vec![("html", text("&\"x;"))])), "&amp;&quot;x;");
    assert!(renderer::render::entity_ref("&nbsp;"));
    assert!(!renderer::render::entity_ref("&nb sp;"));
}

#[test]
fn metadata_and_unknown_elements() {
    let s = empty_slugs();
    let drawer = arr(vec![
        text("property-drawer"),
        obj(vec![("post-blank", num(2))]),
        arr(vec![text("node-property"), obj(vec![("key", text("ID"))]), text("hidden")]),
    ]);
    assert_eq!(render_node(&drawer, &s), "  ");
    let unknown = arr(vec![text("mystery"), Json::Null, text("a"), text("b")]);
    assert_eq!(render_node(&unknown, &s), "ab");
    let untyped = arr(vec![num(5), Json::Null, text("c")]);
    assert_eq!(render_node(&untyped, &s), "c");
    assert_eq!(render_node(&arr(vec![text("bold")]), &s), "");
    assert_eq!(render_node(&Json::Null, &s), "");
    assert_eq!(render_node(&Json::Bool(true), &s), "");
    assert_eq!(render_node(&num(3), &s), "");
    assert_eq!(render_node(&obj(vec![]), &s), "");
}

#[test]
fn render_ast_renders_whole_tree() {
    let ast = arr(vec![
        text("org-data"),
        Json::Null,
        arr(vec![
            text("section"),
            Json::Null,
            arr(vec![
                text("paragraph"),
                Json::Null,
                arr(vec![text("italic"), obj(vec![("post-blank", num(3))]), text("x")]),
                text("y"),
            ]),
        ]),
    ]);
    assert_eq!(render_ast(&ast, &empty_slugs()), "<p><em>x</em>   y</p>\n");
}

#[test]
fn timestamps_parse() {
    assert_eq!(parse_org_timestamp("<2026-01-16>").as_deref(), Some("2026-01-16T00:00:00Z"));
    assert_eq!(
        parse_org_timestamp("<2025-12-02 Tue 01:25>").as_deref(),
        Some("2025-12-02T01:25:00Z")
    );
    assert_eq!(parse_org_timestamp("<2026-01-16 Fri>").as_deref(), Some("2026-01-16T00:00:00Z"));
    assert_eq!(parse_org_timestamp("<<2024-02-29 9:05>>").as_deref(), Some("2024-02-29T09:05:00Z"));
    assert_eq!(parse_org_timestamp("  <2024-02-29>"), None);
    assert_eq!(parse_org_timestamp("<2023-02-29>"), None);
    assert_eq!(parse_org_timestamp("yesterday"), None);
    assert_eq!(parse_org_timestamp(""), None);
    assert_eq!(parse_org_timestamp("<2025-12-02 25:99>"), None);
}

#[test]
fn last_modified_from_property_drawer() {
    let ast = arr(vec![
        text("org-data"),
        Json::Null,
        arr(vec![
            text("section"),
            Json::Null,
            arr(vec![
                text("property-drawer"),
                Json::Null,
                arr(vec![
                    text("node-property"),
                    obj(vec![("key", text("ID")), ("value", text("x"))]),
                ]),
                arr(vec![
                    text("node-property"),
                    obj(vec![("key", text("LAST_MODIFIED")), ("value", text("<2026-01-16 Fri 10:30>"))]),
                ]),
            ]),
        ]),
    ]);
    assert_eq!(extract_last_modified(&ast), "2026-01-16T10:30:00Z");
}

#[test]
fn last_modified_search_goes_on_past_unreadable_property() {
    let prop = |value: &str| {
        arr(vec![
            text("node-property"),
            obj(vec![("key", text("LAST_MODIFIED")), ("value", text(value))]),
        ])
    };
    let ast = arr(vec![
        text("org-data"),
        obj(vec![("LAST_MODIFIED", text("not a date"))]),
        arr(vec![text("section"), Json::Null, prop("garbage"), prop("<2020-01-01>")]),
        prop("<2021-05-05>"),
    ]);
    assert_eq!(extract_last_modified(&ast), "2020-01-01T00:00:00Z");
    assert_eq!(extract_last_modified(&text("x")), "1970-01-01T00:00:00Z");
}

#[test]
fn unknown_element_types_in_render_order() {
    let title = arr(vec![arr(vec![text("odd-title"), Json::Null])]);
    let ast = arr(vec![
        text("org-data"),
        Json::Null,
        arr(vec![text("mystery"), Json::Null, arr(vec![text("inner-odd"), Json::Null])]),
        arr(vec![text("headline"), obj(vec![("title", title)]), arr(vec![num(5), Json::Null])]),
        arr(vec![text("drawer"), Json::Null, arr(vec![text("hidden-odd"), Json::Null])]),
        arr(vec![text("code"), Json::Null, arr(vec![text("leaf-odd"), Json::Null])]),
        arr(vec![
            text("table-row"),
            obj(vec![("type", text("rule"))]),
            arr(vec![text("rule-odd"), Json::Null]),
        ]),
        arr(vec![text("bold"), Json::Null, arr(vec![text("mystery"), Json::Null])]),
    ]);
    let found = unknown_element_types(&ast);
    assert_eq!(found, vec!["mystery", "inner-odd", "odd-title", "", "mystery"]);
    assert!(unknown_element_types(&text("plain")).is_empty());
    assert!(unknown_element_types(&arr(vec![text("bold"), Json::Null])).is_empty());
}

#[test]
fn timestamp_queries_and_iso_texts() {
    assert_eq!(timestamp_query("<2025-12-02 Tue 01:25>"), ("2025-12-02 01:25".to_string(), true));
    assert_eq!(timestamp_query("<2026-01-16>"), ("2026-01-16".to_string(), false));
    assert_eq!(timestamp_query("<2026-01-16 Fri>"), ("2026-01-16".to_string(), false));
    assert_eq!(timestamp_query("  <2026-01-16 >  "), ("<2026-01-16".to_string(), false));
    assert_eq!(date_iso_text(2026, 1, 16), "2026-01-16T00:00:00Z");
    assert_eq!(date_iso_text(12345, 1, 2), "+12345-01-02T00:00:00Z");
    assert_eq!(date_iso_text(-3, 1, 2), "-0003-01-02T00:00:00Z");
    assert_eq!(datetime_iso_text(2025, 12, 2, 1, 25, 0, 0), "2025-12-02T01:25:00Z");
    assert_eq!(datetime_iso_text(2016, 12, 31, 23, 59, 59, 1_500_000_000), "2016-12-31T23:59:60Z");
}

#[test]
fn escaping_keeps_texts_apart() {
    // texts that differ escape differently, even when one spells out an escape
    assert_ne!(html_escape("&lt;"), html_escape("<"));
    assert_eq!(html_escape("&lt;"), "&amp;lt;");
    assert_eq!(html_escape("\"<a & b>\""), "&quot;&lt;a &amp; b&gt;&quot;");
}
