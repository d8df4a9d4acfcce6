use renderer::cache::{hash_bytes, hash_slug_inputs, hex_lower, should_skip, slug_inputs};
use renderer::decimal::push_decimal_padded;
use renderer::json::Json;
use renderer::map::SlugMap;
use renderer::media::{collect_image_paths, collect_pdf_paths, media_plan, pdf_gallery, pdf_page, pdf_source};
use renderer::pipeline::{expand_tilde, index_entry, is_orphan, listed_node_ids};
use renderer::types::{NodeFile, PdfGallery};

fn text(s: &str) -> Json {
    Json::Str(s.to_string())
}

fn obj(members: Vec<(&str, Json)>) -> Json {
    Json::Obj(members.into_iter().map(|(k, v)| (k.to_string(), v)).collect())
}

fn file_link(path: &str) -> Json {
    Json::Arr(vec![text("link"), obj(vec![("type", text("file")), ("path", text(path))])])
}

fn node(id: &str, title: &str, aliases: &[&str]) -> NodeFile {
    NodeFile {
        id: id.to_string(),
        title: title.to_string(),
        file: "".to_string(),
        point: None,
        level: None,
        tags: vec!["t".to_string()],
        aliases: aliases.iter().map(|a| a.to_string()).collect(),
        links_to: vec![],
        linked_from: vec!["back".to_string()],
        ast: Json::Null,
    }
}

#[test]
fn collect_pdf_paths_finds_pdf_links() {
    let ast = file_link("/some/dir/document.pdf");
    let paths = collect_pdf_paths(&ast);
    assert_eq!(paths, vec!["/some/dir/document.pdf"]);
}

#[test]
fn collect_pdf_paths_ignores_non_pdf() {
    let ast = Json::Arr(vec![
        text("section"),
        obj(vec![]),
        file_link("/img/photo.jpg"),
        file_link("/img/icon.png"),
        file_link("/img/logo.svg"),
    ]);
    let paths = collect_pdf_paths(&ast);
    assert!(paths.is_empty());
}

#[test]
fn collect_image_paths_in_order() {
    let ast = Json::Arr(vec![
        text("section"),
        Json::Null,
        file_link("/img/A.JPG"),
        Json::Arr(vec![
            text("paragraph"),
            Json::Null,
            file_link("/doc/paper.PDF"),
            file_link("/img/anim.gif"),
            file_link("/img/notes.txt"),
            Json::Arr(vec![
                text("link"),
                obj(vec![("type", text("https")), ("path", text("//x/y.png"))]),
            ]),
        ]),
    ]);
    assert_eq!(collect_image_paths(&ast), vec!["/img/A.JPG", "/img/anim.gif"]);
    assert_eq!(collect_pdf_paths(&ast), vec!["/doc/paper.PDF"]);
}

#[test]
fn media_plans() {
    let p = media_plan("N1", "/img/Photo.PNG").unwrap();
    assert_eq!(p.file_name, "Photo.PNG");
    assert_eq!(p.dest_file_name, "Photo.webp");
    assert_eq!(p.web_url, "/media/N1/Photo.webp");
    assert!(p.reencode);
    assert_eq!(p.fallback_url, "/media/N1/Photo.PNG");
    let w = media_plan("N1", "pic.webp").unwrap();
    assert_eq!(w.dest_file_name, "pic.webp");
    assert!(!w.reencode);
    let s = media_plan("N1", "/a/logo.svg").unwrap();
    assert_eq!(s.dest_file_name, "logo.svg");
    assert_eq!(s.web_url, "/media/N1/logo.svg");
    assert!(!s.reencode);
    assert!(media_plan("N1", "/").is_none());
}

#[test]
fn pdf_names() {
    let src = pdf_source("/docs/My Paper.pdf").unwrap();
    assert_eq!(src.file_name, "My Paper.pdf");
    assert_eq!(src.slug, "My Paper");
    let (name, page) = pdf_page("test-id", "my-doc", 1, 800, 1200);
    assert_eq!(name, "my-doc-page-1.webp");
    assert_eq!(page.url, "/media/test-id/my-doc-page-1.webp");
    assert_eq!((page.width, page.height), (800, 1200));
    let (name12, _) = pdf_page("n", "d", 12, 1, 1);
    assert_eq!(name12, "d-page-12.webp");
    let g = pdf_gallery("my-doc".to_string(), vec![page]);
    assert_eq!(g.page_count, 1);
    assert_eq!(g.slug, "my-doc");
}

#[test]
fn hashes() {
    assert_eq!(
        hash_bytes(b""),
        "e3b0c44298fc1c149afbf4c8996fb92427ae41e4649b934ca495991b7852b855"
    );
    assert_eq!(
        hash_bytes(b"abc"),
        "ba7816bf8f01cfea414140de5dae2223b00361a396177a9cb410ff61f20015ad"
    );
}

#[test]
fn slug_inputs_text_and_hash() {
    let nodes = [node("B", "Say \"hi\"", &["x", "y"]), node("A", "T", &[])];
    let text = slug_inputs(&nodes);
    assert_eq!(
        text,
        "[{\"aliases\":[],\"id\":\"A\",\"title\":\"T\"},{\"aliases\":[\"x\",\"y\"],\"id\":\"B\",\"title\":\"Say \\\"hi\\\"\"}]"
    );
    assert_eq!(hash_slug_inputs(&nodes), hash_bytes(text.as_bytes()));
    assert_eq!(slug_inputs(&[]), "[]");
}

#[test]
fn slug_inputs_ignore_order_and_other_fields() {
    let a = [node("B", "Beta", &["b"]), node("A", "Alpha", &[])];
    let mut moved = node("A", "Alpha", &[]);
    moved.file = "elsewhere.org".to_string();
    moved.tags = vec!["other".to_string()];
    moved.links_to = vec!["B".to_string()];
    let b = [moved, node("B", "Beta", &["b"])];
    assert_eq!(slug_inputs(&a), slug_inputs(&b));
    assert_eq!(hash_slug_inputs(&a), hash_slug_inputs(&b));
    let renamed = [node("A", "Alpha", &[]), node("B", "Beta!", &["b"])];
    assert_ne!(hash_slug_inputs(&a), hash_slug_inputs(&renamed));
    assert_eq!(hash_slug_inputs(&a).len(), 64);
}

#[test]
fn skip_decision() {
    assert!(should_skip(false, false, "h", "h", true));
    assert!(!should_skip(true, false, "h", "h", true));
    assert!(!should_skip(false, true, "h", "h", true));
    assert!(!should_skip(false, false, "h", "g", true));
    assert!(!should_skip(false, false, "h", "h", false));
}

#[test]
fn node_list_and_orphans() {
    let entries = vec![
        obj(vec![("id", text("A")), ("title", text("x"))]),
        obj(vec![("title", text("no id"))]),
        obj(vec![("id", Json::Num(Some(3)))]),
        text("B"),
        obj(vec![("id", text("C"))]),
    ];
    assert_eq!(listed_node_ids(&entries), vec!["A", "C"]);
    let nodes = [node("A", "x", &[]), node("C", "y", &[])];
    assert!(!is_orphan("A", &nodes));
    assert!(is_orphan("B", &nodes));
}

#[test]
fn index_entries() {
    let n = node("A", "Alpha", &["al"]);
    let mut slugs = SlugMap::new();
    slugs.insert("A".to_string(), "alpha".to_string());
    let e = index_entry(&n, &slugs, "2026-01-01".to_string(), "".to_string(), vec![]);
    assert_eq!(e.slug, "alpha");
    assert_eq!(e.aliases, vec!["al"]);
    assert_eq!(e.tags, vec!["t"]);
    assert_eq!(e.backlinks, vec!["back"]);
    assert!(e.pdf_galleries.is_none());
    let g = PdfGallery { slug: "d".to_string(), page_count: 0, pages: vec![] };
    let e2 = index_entry(&n, &SlugMap::new(), "x".to_string(), "p".to_string(), vec![g]);
    assert_eq!(e2.slug, "A");
    assert_eq!(e2.pdf_galleries.unwrap().len(), 1);
}

#[test]
fn tilde_expansion() {
    assert_eq!(expand_tilde("~/.cache/x", "/home/u"), "/home/u/.cache/x");
    assert_eq!(expand_tilde("rel/~x", "/home/u"), "rel/~x");
    assert_eq!(expand_tilde("~", "/h"), "/h");
}

#[test]
fn decimal_padding() {
    let mut s = String::new();
    push_decimal_padded(&mut s, 7, 4);
    push_decimal_padded(&mut s, 12345, 2);
    assert_eq!(s, "000712345");
}

#[test]
fn lowercase_hex_of_bytes() {
    assert_eq!(hex_lower(&[0x00, 0x0f, 0xa0, 0xff]), "000fa0ff");
    assert_eq!(hex_lower(&[]), "");
    assert_eq!(
        hash_bytes(b"abc"),
        "ba7816bf8f01cfea414140de5dae2223b00361a396177a9cb410ff61f20015ad"
    );
}

#[test]
fn plans_from_known_names() {
    let p = renderer::media::plan_for("n1", "Photo.PNG".to_string(), "png", Some("Photo".to_string()));
    assert_eq!(p.dest_file_name, "Photo.webp");
    assert_eq!(p.web_url, "/media/n1/Photo.webp");
    assert!(p.reencode);
    assert_eq!(p.fallback_url, "/media/n1/Photo.PNG");
    let w = renderer::media::plan_for("n1", "x.webp".to_string(), "webp", None);
    assert_eq!(w.dest_file_name, "x.webp.webp");
    assert!(!w.reencode);
    let g = renderer::media::plan_for("n1", "a.gif".to_string(), "gif", Some("a".to_string()));
    assert_eq!(g.dest_file_name, "a.gif");
    assert!(!g.reencode);
    assert!(renderer::media::is_image_extension("svg"));
    assert!(!renderer::media::is_image_extension("SVG"));
    assert!(!renderer::media::is_image_extension("pdf"));
    assert!(renderer::media::is_pdf_extension("pdf"));
    assert!(!renderer::media::is_pdf_extension("png"));
    let src = renderer::media::pdf_source_of("doc.pdf".to_string(), Some("doc".to_string()));
    assert_eq!((src.file_name.as_str(), src.slug.as_str()), ("doc.pdf", "doc"));
    let bare = renderer::media::pdf_source_of("..".to_string(), None);
    assert_eq!(bare.slug, "..");
}

#[test]
fn page_files_in_name_order() {
    let names = vec![
        "page-000003.ppm".to_string(),
        "page-000001.ppm".to_string(),
        "page-000002.ppm".to_string(),
    ];
    assert_eq!(renderer::media::page_file_order(&names), vec![1, 2, 0]);
    assert!(renderer::media::page_file_order(&vec![]).is_empty());
}
