//! Media attached to nodes: the image and PDF files that `file:` links name,
//! and where each copy or converted page goes.

use vstd::prelude::*;

use crate::decimal::{decimal_seq, push_decimal};
use crate::json::{as_text, find_text, member_text, Json};
use crate::slug::texts;
use crate::order::{key_order, key_sorted_indices};
use crate::text::{chars_of, ends_with, opt_chars, push_char, str_is};
use crate::types::{PdfGallery, PdfPage};
use crate::unicode::{lowercase, str_lowercase};

verus! {

broadcast use vstd::string::group_string_axioms;

/// The extension of a path (`Path::extension`, as UTF-8); `None` where it
/// has none.
pub uninterp spec fn path_extension(p: Seq<char>) -> Option<Seq<char>>;

/// The last component of a path (`Path::file_name`, as UTF-8); `None` where
/// it has none.
pub uninterp spec fn path_file_name(p: Seq<char>) -> Option<Seq<char>>;

/// The file name of a path without its extension (`Path::file_stem`, as
/// UTF-8); `None` where it has no file name.
pub uninterp spec fn path_file_stem(p: Seq<char>) -> Option<Seq<char>>;

/// Calls `Path::extension` on `Path::new(p)` and reads it with
/// `OsStr::to_str`. Claimed: the result is `path_extension(p)`; how std
/// splits a path into components is not spelled out.
#[verifier::external_body]
fn extension_of(p: &str) -> (r: Option<String>)
    ensures
        match r {
            Some(e) => path_extension(p@) == Some(e@),
            None => path_extension(p@) is None,
        },
{
    match std::path::Path::new(p).extension().and_then(|e| e.to_str()) {
        Some(e) => Some(e.to_string()),
        None => None,
    }
}

/// Calls `Path::file_name` on `Path::new(p)` and reads it with
/// `OsStr::to_str`. Claimed: the result is `path_file_name(p)`; how std
/// splits a path into components is not spelled out.
#[verifier::external_body]
fn file_name_of(p: &str) -> (r: Option<String>)
    ensures
        match r {
            Some(e) => path_file_name(p@) == Some(e@),
            None => path_file_name(p@) is None,
        },
{
    match std::path::Path::new(p).file_name().and_then(|e| e.to_str()) {
        Some(e) => Some(e.to_string()),
        None => None,
    }
}

/// Calls `Path::file_stem` on `Path::new(p)` and reads it with
/// `OsStr::to_str`. Claimed: the result is `path_file_stem(p)`; how std
/// splits a path into components is not spelled out.
#[verifier::external_body]
fn file_stem_of(p: &str) -> (r: Option<String>)
    ensures
        match r {
            Some(e) => path_file_stem(p@) == Some(e@),
            None => path_file_stem(p@) is None,
        },
{
    match std::path::Path::new(p).file_stem().and_then(|e| e.to_str()) {
        Some(e) => Some(e.to_string()),
        None => None,
    }
}

/// The lowercased extension of a path; empty where it has none.
pub open spec fn lower_extension(p: Seq<char>) -> Seq<char> {
    match path_extension(p) {
        Some(e) => str_lowercase(e),
        None => Seq::empty(),
    }
}

/// Extensions of the images that a node's page shows.
pub open spec fn is_image_ext(e: Seq<char>) -> bool {
    ||| e == "png"@
    ||| e == "jpg"@
    ||| e == "jpeg"@
    ||| e == "gif"@
    ||| e == "svg"@
    ||| e == "webp"@
    ||| e == "avif"@
}

/// Extensions of the images that are published as WebP; SVG and GIF are
/// passed through unchanged.
pub open spec fn is_webp_ext(e: Seq<char>) -> bool {
    ||| e == "png"@
    ||| e == "jpg"@
    ||| e == "jpeg"@
    ||| e == "avif"@
    ||| e == "webp"@
}

/// The extension of PDF attachments.
pub open spec fn is_pdf_ext(e: Seq<char>) -> bool {
    e == "pdf"@
}

/// Whether a path's extension marks the file kind asked for.
pub open spec fn wanted(p: Seq<char>, pdf: bool) -> bool {
    if pdf {
        is_pdf_ext(lower_extension(p))
    } else {
        is_image_ext(lower_extension(p))
    }
}

/// The target of a `file:` link element, if `node` is one.
pub open spec fn file_link_target(node: Json) -> Option<Seq<char>> {
    match node {
        Json::Arr(v) => {
            if v@.len() >= 2 && as_text(v@[0]) == Some("link"@) && member_text(v@[1], "type"@)
                == Some("file"@) {
                member_text(v@[1], "path"@)
            } else {
                None
            }
        },
        _ => None,
    }
}

/// The targets of the `file:` links of the kind asked for (images, or PDFs)
/// in a tree, in document order.
pub open spec fn linked_files(node: Json, pdf: bool) -> Seq<Seq<char>>
    decreases node,
{
    let own = match file_link_target(node) {
        Some(p) => if wanted(p, pdf) {
            seq![p]
        } else {
            Seq::empty()
        },
        None => Seq::empty(),
    };
    match node {
        Json::Arr(v) => {
            if v@.len() >= 2 {
                own + linked_files_seq(v@.subrange(2, v@.len() as int), pdf)
            } else {
                own
            }
        },
        _ => own,
    }
}

/// The targets that `linked_files` finds in each tree, one tree after the other.
pub open spec fn linked_files_seq(s: Seq<Json>, pdf: bool) -> Seq<Seq<char>>
    decreases s,
{
    if s.len() == 0 {
        Seq::empty()
    } else {
        linked_files_seq(s.drop_last(), pdf) + linked_files(s.last(), pdf)
    }
}

fn lower_extension_of(p: &str) -> (r: String)
    ensures
        r@ == lower_extension(p@),
{
    match extension_of(p) {
        Some(e) => lowercase(e.as_str()),
        None => String::new(),
    }
}

fn is_wanted(p: &str, pdf: bool) -> (r: bool)
    ensures
        r == wanted(p@, pdf),
{
    let e = lower_extension_of(p);
    if pdf {
        is_pdf_extension(e.as_str())
    } else {
        is_image_extension(e.as_str())
    }
}

/// Whether a lowercased extension is one of the images that a node's page
/// shows.
pub fn is_image_extension(e: &str) -> (r: bool)
    ensures
        r == is_image_ext(e@),
{
    str_is(e, "png") || str_is(e, "jpg") || str_is(e, "jpeg") || str_is(e, "gif") || str_is(
        e,
        "svg",
    ) || str_is(e, "webp") || str_is(e, "avif")
}

/// Whether a lowercased extension is that of a PDF.
pub fn is_pdf_extension(e: &str) -> (r: bool)
    ensures
        r == is_pdf_ext(e@),
{
    str_is(e, "pdf")
}

fn file_link_target_of(node: &Json) -> (r: Option<&str>)
    ensures
        match r {
            Some(p) => file_link_target(*node) == Some(p@),
            None => file_link_target(*node) is None,
        },
{
    match node {
        Json::Arr(v) => {
            if v.len() >= 2 {
                let is_link = match &v[0] {
                    Json::Str(t) => str_is(t.as_str(), "link"),
                    _ => false,
                };
                let is_file = match find_text(&v[1], "type") {
                    Some(t) => str_is(t, "file"),
                    None => false,
                };
                if is_link && is_file {
                    find_text(&v[1], "path")
                } else {
                    None
                }
            } else {
                None
            }
        },
        _ => None,
    }
}

fn collect_links(node: &Json, pdf: bool, out: &mut Vec<String>)
    ensures
        texts(final(out)@) == texts(old(out)@) + linked_files(*node, pdf),
    decreases node, 1nat,
{
    let ghost start = texts(out@);
    match file_link_target_of(node) {
        Some(p) => {
            if is_wanted(p, pdf) {
                out.push(String::from_str(p));
                proof {
                    assert(texts(out@) == start + seq![p@]);
                }
            }
        },
        None => {},
    }
    let ghost after_own = texts(out@);
    proof {
        assert(after_own == start + match file_link_target(*node) {
            Some(p) => if wanted(p, pdf) {
                seq![p]
            } else {
                Seq::empty()
            },
            None => Seq::empty(),
        });
    }
    match node {
        Json::Arr(v) => {
            if v.len() >= 2 {
                collect_children(v, pdf, out);
            }
        },
        _ => {},
    }
}

fn collect_children(v: &Vec<Json>, pdf: bool, out: &mut Vec<String>)
    requires
        v@.len() >= 2,
    ensures
        texts(final(out)@) == texts(old(out)@) + linked_files_seq(
            v@.subrange(2, v@.len() as int),
            pdf,
        ),
    decreases v, 0nat,
{
    let ghost start = texts(out@);
    let n = v.len();
    let mut i: usize = 2;
    proof {
        assert(start + linked_files_seq(v@.subrange(2, 2), pdf) == start);
    }
    while i < n
        invariant
            2 <= i <= n == v@.len(),
            texts(out@) == start + linked_files_seq(v@.subrange(2, i as int), pdf),
        decreases n - i,
    {
        proof {
            assert(decreases_to!(v => v@[i as int]));
            assert(v@.subrange(2, i + 1).drop_last() == v@.subrange(2, i as int));
        }
        collect_links(&v[i], pdf, out);
        i = i + 1;
    }
}

/// Walk AST and collect all file: link paths that have an image extension.
pub fn collect_image_paths(ast: &Json) -> (r: Vec<String>)
    ensures
        texts(r@) == linked_files(*ast, false),
{
    let mut out: Vec<String> = Vec::new();
    collect_links(ast, false, &mut out);
    proof {
        assert(texts(Seq::<String>::empty()) == Seq::<Seq<char>>::empty());
    }
    out
}

/// Walk AST and collect all file: link paths that have a .pdf extension.
pub fn collect_pdf_paths(ast: &Json) -> (r: Vec<String>)
    ensures
        texts(r@) == linked_files(*ast, true),
{
    let mut out: Vec<String> = Vec::new();
    collect_links(ast, true, &mut out);
    proof {
        assert(texts(Seq::<String>::empty()) == Seq::<Seq<char>>::empty());
    }
    out
}


/// `/media/<node_id>/<name>`, the URL under which a node's media file is served.
pub open spec fn media_url(node_id: Seq<char>, name: Seq<char>) -> Seq<char> {
    "/media/"@ + node_id + seq!['/'] + name
}

fn media_url_of(node_id: &str, name: &str) -> (r: String)
    ensures
        r@ == media_url(node_id@, name@),
{
    let mut out = String::from_str("/media/");
    out.append(node_id);
    push_char(&mut out, '/');
    out.append(name);
    out
}

/// Where an image that a node links goes in the web media directory.
pub struct MediaPlan {
    /// The file name of the image in the export's media directory.
    pub file_name: String,
    /// The file name it is published under.
    pub dest_file_name: String,
    /// The URL it is published under.
    pub web_url: String,
    /// Whether it is decoded and re-encoded as WebP (else copied verbatim).
    pub reencode: bool,
    /// The URL of a verbatim copy, used where re-encoding fails.
    pub fallback_url: String,
}

/// The published file name of an image, from its file name, its lowercased
/// extension and its file stem: `<stem>.webp` for the formats published as
/// WebP (the stem falls back to the whole file name), else the file name
/// itself.
pub open spec fn published_name_of(file_name: Seq<char>, ext: Seq<char>, stem: Option<Seq<char>>) -> Seq<
    char,
> {
    if is_webp_ext(ext) {
        let base = match stem {
            Some(s) => s,
            None => file_name,
        };
        base + ".webp"@
    } else {
        file_name
    }
}

/// The published file name of an image (see `published_name_of`).
pub open spec fn published_name(file_name: Seq<char>) -> Seq<char> {
    published_name_of(file_name, lower_extension(file_name), path_file_stem(file_name))
}

/// Whether an image with lowercased extension `ext` published as `dest` is
/// re-encoded: `dest` ends with `.webp` and the image is not a WebP file
/// already.
pub open spec fn reencoded(dest: Seq<char>, ext: Seq<char>) -> bool {
    &&& dest.len() >= 5 && dest.skip(dest.len() - 5) == ".webp"@
    &&& ext != "webp"@
}

/// Whether an image is re-encoded (see `reencoded`).
pub open spec fn needs_reencode(file_name: Seq<char>) -> bool {
    reencoded(published_name(file_name), lower_extension(file_name))
}

/// The plan for an image of node `node_id` whose file name, lowercased
/// extension and file stem are known (as `Path` and `str::to_lowercase`
/// give them).
pub fn plan_for(node_id: &str, file_name: String, ext: &str, stem: Option<String>) -> (p: MediaPlan)
    ensures
        p.file_name == file_name,
        p.dest_file_name@ == published_name_of(file_name@, ext@, opt_chars(stem)),
        p.web_url@ == media_url(node_id@, p.dest_file_name@),
        p.reencode == reencoded(p.dest_file_name@, ext@),
        p.fallback_url@ == media_url(node_id@, file_name@),
{
    let to_webp = str_is(ext, "png") || str_is(ext, "jpg") || str_is(ext, "jpeg") || str_is(
        ext,
        "avif",
    ) || str_is(ext, "webp");
    let dest = if to_webp {
        let mut d = match stem {
            Some(s) => s,
            None => file_name.clone(),
        };
        d.append(".webp");
        d
    } else {
        file_name.clone()
    };
    proof {
        reveal_strlit(".webp");
    }
    let reencode = ends_with(dest.as_str(), ".webp") && !str_is(ext, "webp");
    let web_url = media_url_of(node_id, dest.as_str());
    let fallback_url = media_url_of(node_id, file_name.as_str());
    MediaPlan { file_name, dest_file_name: dest, web_url, reencode, fallback_url }
}

/// The plan for an image linked as `link_path` from node `node_id`; `None`
/// where the path has no file name.
pub fn media_plan(node_id: &str, link_path: &str) -> (r: Option<MediaPlan>)
    ensures
        match r {
            Some(p) => {
                &&& path_file_name(link_path@) == Some(p.file_name@)
                &&& p.dest_file_name@ == published_name(p.file_name@)
                &&& p.web_url@ == media_url(node_id@, p.dest_file_name@)
                &&& p.reencode == needs_reencode(p.file_name@)
                &&& p.fallback_url@ == media_url(node_id@, p.file_name@)
            },
            None => path_file_name(link_path@) is None,
        },
{
    let file_name = match file_name_of(link_path) {
        Some(f) => f,
        None => {
            return None;
        },
    };
    let ext = lower_extension_of(file_name.as_str());
    let stem = file_stem_of(file_name.as_str());
    proof {
        assert(opt_chars(stem) == path_file_stem(file_name@));
    }
    Some(plan_for(node_id, file_name, ext.as_str(), stem))
}

/// A PDF that a node links: its file name and the slug of its gallery.
pub struct PdfSource {
    pub file_name: String,
    pub slug: String,
}

/// The file name and gallery slug (the file stem, else the whole file name)
/// of a PDF linked as `link_path`; `None` where the path has no file name.
pub fn pdf_source(link_path: &str) -> (r: Option<PdfSource>)
    ensures
        match r {
            Some(p) => {
                &&& path_file_name(link_path@) == Some(p.file_name@)
                &&& p.slug@ == match path_file_stem(p.file_name@) {
                    Some(s) => s,
                    None => p.file_name@,
                }
            },
            None => path_file_name(link_path@) is None,
        },
{
    let file_name = match file_name_of(link_path) {
        Some(f) => f,
        None => {
            return None;
        },
    };
    let stem = file_stem_of(file_name.as_str());
    Some(pdf_source_of(file_name, stem))
}

/// The PDF source with file name `file_name` and file stem `stem` (as
/// `Path::file_stem` gives it): its gallery slug is the stem, else the whole
/// file name.
pub fn pdf_source_of(file_name: String, stem: Option<String>) -> (r: PdfSource)
    ensures
        r.file_name == file_name,
        r.slug@ == match opt_chars(stem) {
            Some(s) => s,
            None => file_name@,
        },
{
    let slug = match stem {
        Some(s) => s,
        None => file_name.clone(),
    };
    PdfSource { file_name, slug }
}

/// The order in which the page files that pdftoppm writes are read: by file
/// name (as `str` orders them), equal names in their given order. Page `N`
/// of the gallery is the `N`-th file in this order.
pub fn page_file_order(names: &Vec<String>) -> (r: Vec<usize>)
    ensures
        r@.len() == names@.len(),
        forall|k: int| 0 <= k < r@.len() ==> #[trigger] r@[k] < names@.len(),
        r@.map_values(|u: usize| u as int) == key_order(texts(names@)),
{
    let mut keys: Vec<Vec<char>> = Vec::new();
    let n = names.len();
    let mut i: usize = 0;
    while i < n
        invariant
            i <= n == names@.len(),
            keys@.len() == i,
            forall|k: int| 0 <= k < i ==> (#[trigger] keys@[k])@ == names@[k]@,
        decreases n - i,
    {
        keys.push(chars_of(names[i].as_str()));
        i = i + 1;
    }
    proof {
        assert(keys@.map_values(|v: Vec<char>| v@) == texts(names@));
    }
    key_sorted_indices(&keys)
}

/// `<pdf_slug>-page-<N>.webp`, the file name of page `N` of a gallery.
pub open spec fn page_file_name(pdf_slug: Seq<char>, page_num: nat) -> Seq<char> {
    pdf_slug + "-page-"@ + decimal_seq(page_num) + ".webp"@
}

/// The file name of page `page_num` of the gallery `pdf_slug`, and the page
/// record (served under `/media/<node_id>/<file name>`).
pub fn pdf_page(node_id: &str, pdf_slug: &str, page_num: usize, width: u32, height: u32) -> (r: (
    String,
    PdfPage,
))
    ensures
        r.0@ == page_file_name(pdf_slug@, page_num as nat),
        r.1.url@ == media_url(node_id@, r.0@),
        r.1.width == width,
        r.1.height == height,
{
    let mut name = String::from_str(pdf_slug);
    name.append("-page-");
    push_decimal(&mut name, page_num as u64);
    name.append(".webp");
    let url = media_url_of(node_id, name.as_str());
    (name, PdfPage { url, width, height })
}

/// The gallery `slug` made of `pages`; its page count is the number of pages
/// (as `u32`, as `as` casts it).
pub fn pdf_gallery(slug: String, pages: Vec<PdfPage>) -> (r: PdfGallery)
    ensures
        r.slug == slug,
        r.pages == pages,
        r.page_count == pages@.len() as u32,
{
    let n = pages.len();
    PdfGallery { slug, page_count: #[verifier::truncate] (n as u32), pages }
}

/// Which `file:` links are collected: a link to `p` is among the image
/// paths exactly when the lowercased extension of `p` is png, jpg, jpeg,
/// gif, svg, webp or avif, and among the PDF paths exactly when it is pdf;
/// the links inside it follow, in order.
pub proof fn law_file_links_collected(v: Vec<Json>, p: Seq<char>)
    requires
        v@.len() >= 2,
        as_text(v@[0]) == Some("link"@),
        member_text(v@[1], "type"@) == Some("file"@),
        member_text(v@[1], "path"@) == Some(p),
    ensures
        ({
            let e = lower_extension(p);
            let kids = v@.subrange(2, v@.len() as int);
            let image = e == "png"@ || e == "jpg"@ || e == "jpeg"@ || e == "gif"@ || e == "svg"@
                || e == "webp"@ || e == "avif"@;
            &&& linked_files(Json::Arr(v), false) == (if image {
                seq![p]
            } else {
                Seq::empty()
            }) + linked_files_seq(kids, false)
            &&& linked_files(Json::Arr(v), true) == (if e == "pdf"@ {
                seq![p]
            } else {
                Seq::empty()
            }) + linked_files_seq(kids, true)
        }),
{
}

/// How an image is published, from its file name, lowercased extension and
/// file stem: png, jpg, jpeg, avif and webp images are published as
/// `<stem>.webp` (the whole file name where there is no stem) and are
/// re-encoded unless they are WebP already; any other image keeps its file
/// name and is re-encoded only where that name ends with `.webp`.
pub proof fn law_webp_publishing(file_name: Seq<char>, ext: Seq<char>, stem: Option<Seq<char>>)
    ensures
        ({
            let base = match stem {
                Some(s) => s,
                None => file_name,
            };
            let dest = published_name_of(file_name, ext, stem);
            let ends_webp = file_name.len() >= 5 && file_name.skip(file_name.len() - 5) == ".webp"@;
            &&& (ext == "png"@ || ext == "jpg"@ || ext == "jpeg"@ || ext == "avif"@ || ext
                == "webp"@) ==> dest == base + ".webp"@ && reencoded(dest, ext) == (ext != "webp"@)
            &&& !(ext == "png"@ || ext == "jpg"@ || ext == "jpeg"@ || ext == "avif"@ || ext
                == "webp"@) ==> dest == file_name && reencoded(dest, ext) == ends_webp
        }),
{
    reveal_strlit(".webp");
    reveal_strlit("webp");
    let base = match stem {
        Some(s) => s,
        None => file_name,
    };
    let d = base + ".webp"@;
    assert(d.skip(d.len() - 5) =~= ".webp"@);
}

/// Media are served under `/media/<node id>/<file name>`, and page `N` of
/// a gallery is the file `<slug>-page-<N>.webp`, `N` in decimal digits
/// without leading zeros.
pub proof fn law_media_names(node_id: Seq<char>, name: Seq<char>, pdf_slug: Seq<char>, n: nat)
    ensures
        ({
            let u = media_url(node_id, name);
            &&& u.take(7) == "/media/"@
            &&& u.subrange(7, 7 + node_id.len() as int) == node_id
            &&& u[7 + node_id.len() as int] == '/'
            &&& u.skip(8 + node_id.len() as int) == name
        }),
        ({
            let f = page_file_name(pdf_slug, n);
            let digits = f.subrange(pdf_slug.len() as int + 6, f.len() - 5);
            &&& f.take(pdf_slug.len() as int) == pdf_slug
            &&& f.subrange(pdf_slug.len() as int, pdf_slug.len() as int + 6) == "-page-"@
            &&& f.skip(f.len() - 5) == ".webp"@
            &&& digits.len() >= 1 && crate::decimal::all_digits(digits)
            &&& crate::decimal::digits_value(digits) == n
            &&& (digits[0] == '0' ==> n == 0)
        }),
{
    reveal_strlit("/media/");
    reveal_strlit("-page-");
    reveal_strlit(".webp");
    let u = media_url(node_id, name);
    assert(u.take(7) =~= "/media/"@);
    assert(u.subrange(7, 7 + node_id.len() as int) =~= node_id);
    assert(u.skip(8 + node_id.len() as int) =~= name);
    crate::decimal::law_decimal_reads_back(n);
    let d = decimal_seq(n);
    let f = page_file_name(pdf_slug, n);
    assert(f.take(pdf_slug.len() as int) =~= pdf_slug);
    assert(f.subrange(pdf_slug.len() as int, pdf_slug.len() as int + 6) =~= "-page-"@);
    assert(f.skip(f.len() - 5) =~= ".webp"@);
    assert(f.subrange(pdf_slug.len() as int + 6, f.len() - 5) =~= d);
}

/// The files found in a run of trees are those of the first part, then
/// those of the second, in document order.
pub proof fn law_linked_files_concat(a: Seq<Json>, b: Seq<Json>, pdf: bool)
    ensures
        linked_files_seq(a + b, pdf) == linked_files_seq(a, pdf) + linked_files_seq(b, pdf),
    decreases b.len(),
{
    if b.len() == 0 {
        assert(a + b =~= a);
        assert(linked_files_seq(a, pdf) + Seq::<Seq<char>>::empty() =~= linked_files_seq(a, pdf));
    } else {
        assert((a + b).drop_last() =~= a + b.drop_last());
        law_linked_files_concat(a, b.drop_last(), pdf);
    }
}

/// How a linked image file `f` is published: where its lowercased
/// extension is png, jpg, jpeg, avif or webp, as `<stem>.webp` (the whole
/// file name where it has no stem), re-encoded unless it is WebP already;
/// otherwise under its own name, re-encoded only where that name ends with
/// `.webp`.
pub proof fn law_image_publishing(f: Seq<char>)
    ensures
        ({
            let e = lower_extension(f);
            let base = match path_file_stem(f) {
                Some(s) => s,
                None => f,
            };
            let webp = e == "png"@ || e == "jpg"@ || e == "jpeg"@ || e == "avif"@ || e == "webp"@;
            &&& webp ==> published_name(f) == base + ".webp"@ && needs_reencode(f) == (e != "webp"@)
            &&& !webp ==> published_name(f) == f && needs_reencode(f) == (f.len() >= 5 && f.skip(
                f.len() - 5,
            ) == ".webp"@)
        }),
{
    law_webp_publishing(f, lower_extension(f), path_file_stem(f));
}

/// The search for linked files descends into every element: an element
/// that is not itself a `file:` link finds what its children find, in
/// order; text and other values find nothing.
pub proof fn law_linked_files_descend(node: Json, pdf: bool)
    requires
        file_link_target(node) is None,
    ensures
        linked_files(node, pdf) == match node {
            Json::Arr(v) => if v@.len() >= 2 {
                linked_files_seq(v@.subrange(2, v@.len() as int), pdf)
            } else {
                Seq::<Seq<char>>::empty()
            },
            _ => Seq::<Seq<char>>::empty(),
        },
{
    if let Json::Arr(v) = node {
        if v@.len() >= 2 {
            assert(Seq::<Seq<char>>::empty() + linked_files_seq(v@.subrange(2, v@.len() as int), pdf)
                =~= linked_files_seq(v@.subrange(2, v@.len() as int), pdf));
        }
    }
}

} // verus!
