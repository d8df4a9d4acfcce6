use renderer::json::Json;
use renderer::map::SlugMap;
use renderer::slug::{
    build_alias_map, build_slug_map, eight_byte_prefix, id_suffix, slug_from_classes, slugify,
    try_build_alias_map, try_build_slug_map,
};
use renderer::types::NodeFile;

fn node(id: &str, title: &str, aliases: &[&str]) -> NodeFile {
    NodeFile {
        id: id.to_string(),
        title: title.to_string(),
        file: "".to_string(),
        point: None,
        level: None,
        tags: vec![],
        aliases: aliases.iter().map(|a| a.to_string()).collect(),
        links_to: vec![],
        linked_from: vec![],
        ast: Json::Null,
    }
}

#[test]
fn test_slugify_basic() {
    assert_eq!(slugify("Hello World"), "hello-world");
}

#[test]
fn test_slugify_special_chars() {
    assert_eq!(slugify("C++: The Language"), "c-the-language");
}

#[test]
fn test_slugify_leading_trailing() {
    assert_eq!(slugify(" leading and trailing "), "leading-and-trailing");
}

#[test]
fn test_slugify_deduplicates_hyphens() {
    assert_eq!(slugify("a  b   c"), "a-b-c");
}

// Slug collision — two nodes with identical titles
#[test]
fn test_slug_collision_appends_uuid_suffix() {
    let node_a = NodeFile {
        id: "AAAAAAAA-0000-0000-0000-000000000000".to_string(),
        title: "Duplicate Title".to_string(),
        file: "".to_string(),
        point: None,
        level: None,
        tags: vec![],
        aliases: vec![],
        links_to: vec![],
        linked_from: vec![],
        ast: Json::Null,
    };
    let node_b = NodeFile {
        id: "BBBBBBBB-0000-0000-0000-000000000000".to_string(),
        title: "Duplicate Title".to_string(),
        file: "".to_string(),
        point: None,
        level: None,
        tags: vec![],
        aliases: vec![],
        links_to: vec![],
        linked_from: vec![],
        ast: Json::Null,
    };
    let map = build_slug_map(&[node_a, node_b]);
    let slug_a = map.get("AAAAAAAA-0000-0000-0000-000000000000").unwrap();
    let slug_b = map.get("BBBBBBBB-0000-0000-0000-000000000000").unwrap();
    assert_ne!(slug_a, slug_b, "Colliding slugs must be different");
    // The second (by UUID sort: AAAA < BBBB, so AAAA is first) gets clean slug
    assert_eq!(slug_a, "duplicate-title");
    assert!(slug_b.starts_with("duplicate-title-"));
}

#[test]
fn slugify_edge_cases() {
    assert_eq!(slugify(""), "");
    assert_eq!(slugify("--- !!! ---"), "");
    assert_eq!(slugify("Straße Über"), "straße-über");
    assert_eq!(slugify("ABC123"), "abc123");
    assert_eq!(slugify("a_b"), slugify("a.b"));
    assert_eq!(slugify("x-"), "x");
}

#[test]
fn slugs_have_tidy_hyphens() {
    for t in ["  --a--b--  ", "Q&A: why?", "-x-", "über---alles"] {
        let s = slugify(t);
        assert!(!s.starts_with('-') && !s.ends_with('-') && !s.contains("--"), "{s}");
    }
}

#[test]
fn uuid_suffix_exact() {
    assert_eq!(id_suffix("BBBBBBBB-0000-0000").as_deref(), Some("bbbbbbbb"));
    assert_eq!(id_suffix("A-B-C").as_deref(), Some("abc"));
    assert_eq!(id_suffix("ÄÄÄÄÄ").as_deref(), Some("ääää"));
    assert_eq!(id_suffix("aaaaaaaÄ"), None);
    assert_eq!(id_suffix("").as_deref(), Some(""));
}

#[test]
fn slug_map_sorted_by_uuid_not_input_order() {
    let nodes = [
        node("C-3", "Same", &[]),
        node("A-1", "Same", &[]),
        node("B-2", "Other", &[]),
    ];
    let map = build_slug_map(&nodes);
    assert_eq!(map.get("A-1").unwrap(), "same");
    assert_eq!(map.get("C-3").unwrap(), "same-c3");
    assert_eq!(map.get("B-2").unwrap(), "other");
    assert!(map.get("D-4").is_none());
    let reordered = [
        node("B-2", "Other", &[]),
        node("A-1", "Same", &[]),
        node("C-3", "Same", &[]),
    ];
    let map2 = build_slug_map(&reordered);
    for id in ["A-1", "B-2", "C-3"] {
        assert_eq!(map.get(id), map2.get(id));
    }
}

#[test]
fn slug_map_refuses_split_character() {
    let nodes = [node("a", "T", &[]), node("aaaaaaaÄ", "T", &[])];
    assert!(try_build_slug_map(&nodes).is_none());
    let fine = [node("a", "T", &[]), node("b", "T", &[])];
    let map = try_build_slug_map(&fine).unwrap();
    assert_eq!(map.get("b").unwrap(), "t-b");
}

#[test]
fn alias_map_exact() {
    let nodes = [
        node("B-2", "Beta", &["Second Name", "Shared"]),
        node("A-1", "Alpha", &["Shared"]),
    ];
    let slugs = build_slug_map(&nodes);
    let aliases = build_alias_map(&nodes, &slugs);
    assert_eq!(aliases.get("alpha").unwrap(), "A-1");
    assert_eq!(aliases.get("A-1").unwrap(), "A-1");
    assert_eq!(aliases.get("shared").unwrap(), "A-1");
    assert_eq!(aliases.get("beta").unwrap(), "B-2");
    assert_eq!(aliases.get("B-2").unwrap(), "B-2");
    assert_eq!(aliases.get("second-name").unwrap(), "B-2");
    assert_eq!(aliases.get("shared-b2").unwrap(), "B-2");
    assert!(aliases.get("gamma").is_none());
}

#[test]
fn alias_map_without_slug() {
    let nodes = [node("A-1", "Alpha", &[])];
    let aliases = build_alias_map(&nodes, &SlugMap::new());
    assert!(aliases.get("alpha").is_none());
    assert_eq!(aliases.get("A-1").unwrap(), "A-1");
    let bad = [node("a", "T", &["X"]), node("aaaaaaaÄ", "U", &["X"])];
    assert!(try_build_alias_map(&bad, &SlugMap::new()).is_none());
}

#[test]
fn slug_map_insert_replaces() {
    let mut m = SlugMap::new();
    m.insert("k".to_string(), "v1".to_string());
    m.insert("k".to_string(), "v2".to_string());
    assert_eq!(m.get("k").unwrap(), "v2");
    assert!(m.contains_key("k"));
    assert!(!m.contains_key("j"));
    assert_eq!(m.pairs().len(), 1);
    m.insert("a".to_string(), "x".to_string());
    assert_eq!(m.pairs()[0].0, "a");
}

#[test]
fn every_path_resolves_to_its_node() {
    let nodes = [
        node("b-uuid", "Beta Node", &["Second", "The B"]),
        node("a-uuid", "Alpha", &["First One"]),
    ];
    let slugs = build_slug_map(&nodes);
    let aliases = build_alias_map(&nodes, &slugs);
    for (path, id) in [
        ("alpha", "a-uuid"),
        ("a-uuid", "a-uuid"),
        ("first-one", "a-uuid"),
        ("beta-node", "b-uuid"),
        ("b-uuid", "b-uuid"),
        ("second", "b-uuid"),
        ("the-b", "b-uuid"),
    ] {
        assert_eq!(aliases.get(path).map(|s| s.as_str()), Some(id), "{path}");
    }
    assert_eq!(aliases.pairs().len(), 7);
    // the slug map: each UUID to its canonical slug, each alias slug to its UUID
    assert_eq!(slugs.pairs().len(), 5);
    assert_eq!(slugs.get("a-uuid").map(|s| s.as_str()), Some("alpha"));
    assert_eq!(slugs.get("b-uuid").map(|s| s.as_str()), Some("beta-node"));
    assert_eq!(slugs.get("first-one").map(|s| s.as_str()), Some("a-uuid"));
    assert_eq!(slugs.get("second").map(|s| s.as_str()), Some("b-uuid"));
    assert_eq!(slugs.get("the-b").map(|s| s.as_str()), Some("b-uuid"));
}

#[test]
fn slug_map_alias_keys_never_replace_uuids() {
    // an alias slug equal to a UUID keeps the UUID's canonical slug; a shared
    // alias slug goes to the first node in UUID order
    let nodes = [
        node("zed", "Zed", &["Common", "abc"]),
        node("abc", "Abc Title", &["common"]),
    ];
    let slugs = build_slug_map(&nodes);
    assert_eq!(slugs.get("abc").map(|s| s.as_str()), Some("abc-title"));
    assert_eq!(slugs.get("zed").map(|s| s.as_str()), Some("zed"));
    assert_eq!(slugs.get("common").map(|s| s.as_str()), Some("abc"));
    assert_eq!(slugs.pairs().len(), 3);
}

#[test]
fn ascii_ids_always_build() {
    let nodes = [node("x-1", "Same", &["a", "a"]), node("x-2", "Same", &[]), node("x-3", "Same", &[])];
    let slugs = try_build_slug_map(&nodes).expect("ASCII ids build");
    assert_eq!(slugs.get("x-2").map(|s| s.as_str()), Some("same-x2"));
    assert_eq!(slugs.get("x-3").map(|s| s.as_str()), Some("same-x3"));
    let aliases = try_build_alias_map(&nodes, &slugs).expect("ASCII ids build");
    assert_eq!(aliases.get("a").map(|s| s.as_str()), Some("x-1"));
    assert_eq!(aliases.get("a-x1").map(|s| s.as_str()), Some("x-1"));
}

#[test]
fn slugify_is_idempotent_on_examples() {
    for s in ["Hello World", "C++: The Language", " -a--b- ", "Ünïcödé Têxt", "42 is the answer", ""] {
        let once = slugify(s);
        assert_eq!(slugify(&once), once);
    }
}

#[test]
fn slug_from_read_characters() {
    let classes = vec![
        (false, ' '),
        (true, 'a'),
        (false, '+'),
        (false, '+'),
        (true, 'b'),
        (true, '7'),
        (false, '!'),
    ];
    assert_eq!(slug_from_classes(&classes), "a-b7");
    assert_eq!(slug_from_classes(&vec![]), "");
    assert_eq!(slug_from_classes(&vec![(false, '-'), (false, '-')]), "");
    // the lowercase given for a character is what is written
    assert_eq!(slug_from_classes(&vec![(true, 'x'), (false, 'Y'), (true, 'z')]), "x-z");
}

#[test]
fn eight_byte_prefixes() {
    assert_eq!(eight_byte_prefix("0123456789ab"), Some("01234567".to_string()));
    assert_eq!(eight_byte_prefix("abc"), Some("abc".to_string()));
    assert_eq!(eight_byte_prefix(""), Some("".to_string()));
    assert_eq!(eight_byte_prefix("abcdefgé"), None);
    assert_eq!(eight_byte_prefix("abcdefé"), Some("abcdefé".to_string()));
}

#[test]
fn slug_split_join_form() {
    // non-alphanumerics become '-', runs collapse, ends are trimmed
    assert_eq!(slugify("--Hello,  World!--"), "hello-world");
    assert_eq!(slugify("ÀB_c"), "àb-c");
    assert_eq!(slugify("!!!"), "");
}
