//! The rules of a rendering run that sit between reading the export and
//! writing the site: which nodes the export lists, what each index entry
//! holds, and which output files no longer belong to a node.

use vstd::prelude::*;

use crate::json::{find_text, member_text, Json};
use crate::map::SlugMap;
use crate::slug::texts;
use crate::types::{IndexEntry, NodeFile, PdfGallery};

verus! {

broadcast use vstd::string::group_string_axioms;

/// The `id` of each entry of the export's node list that has a string `id`, in order.
pub open spec fn listed_ids_spec(entries: Seq<Json>) -> Seq<Seq<char>>
    decreases entries.len(),
{
    if entries.len() == 0 {
        Seq::empty()
    } else {
        listed_ids_spec(entries.drop_last()) + match member_text(entries.last(), "id"@) {
            Some(id) => seq![id],
            None => Seq::empty(),
        }
    }
}

/// The node UUIDs that the export's node list names.
pub fn listed_node_ids(entries: &Vec<Json>) -> (r: Vec<String>)
    ensures
        texts(r@) == listed_ids_spec(entries@),
{
    let n = entries.len();
    let mut out: Vec<String> = Vec::new();
    let mut i: usize = 0;
    proof {
        assert(entries@.take(0) == Seq::<Json>::empty());
        assert(texts(out@) == Seq::<Seq<char>>::empty());
    }
    while i < n
        invariant
            i <= n == entries@.len(),
            texts(out@) == listed_ids_spec(entries@.take(i as int)),
        decreases n - i,
    {
        proof {
            assert(entries@.take(i + 1).drop_last() == entries@.take(i as int));
        }
        let ghost before = out@;
        match find_text(&entries[i], "id") {
            Some(id) => {
                out.push(String::from_str(id));
                proof {
                    assert(texts(out@) == texts(before).push(id@));
                }
            },
            None => {},
        }
        i = i + 1;
    }
    proof {
        assert(entries@.take(n as int) == entries@);
    }
    out
}

fn clone_strings(v: &Vec<String>) -> (r: Vec<String>)
    ensures
        texts(r@) == texts(v@),
{
    let n = v.len();
    let mut out: Vec<String> = Vec::new();
    let mut i: usize = 0;
    while i < n
        invariant
            i <= n == v@.len(),
            out@.len() == i,
            forall|k: int| 0 <= k < i ==> (#[trigger] out@[k])@ == v@[k]@,
        decreases n - i,
    {
        out.push(v[i].clone());
        i = i + 1;
    }
    proof {
        assert(texts(out@) =~= texts(v@));
    }
    out
}

/// The index entry of a rendered node: its UUID, title, aliases and tags;
/// its canonical slug (the UUID where it has none); its backlinks; its
/// last-modified time and preview; its PDF galleries, absent where there are
/// none.
pub fn index_entry(
    node: &NodeFile,
    slug_map: &SlugMap,
    last_modified: String,
    preview: String,
    pdf_galleries: Vec<PdfGallery>,
) -> (r: IndexEntry)
    ensures
        r.id@ == node.id@,
        r.title@ == node.title@,
        r.slug@ == if slug_map@.dom().contains(node.id@) {
            slug_map@[node.id@]
        } else {
            node.id@
        },
        texts(r.aliases@) == texts(node.aliases@),
        texts(r.tags@) == texts(node.tags@),
        texts(r.backlinks@) == texts(node.linked_from@),
        r.last_modified == last_modified,
        r.preview == preview,
        r.pdf_galleries == if pdf_galleries@.len() == 0 {
            None
        } else {
            Some(pdf_galleries)
        },
{
    let slug = match slug_map.get(node.id.as_str()) {
        Some(s) => s.clone(),
        None => node.id.clone(),
    };
    let galleries = if pdf_galleries.len() == 0 {
        None
    } else {
        Some(pdf_galleries)
    };
    IndexEntry {
        id: node.id.clone(),
        title: node.title.clone(),
        slug,
        aliases: clone_strings(&node.aliases),
        tags: clone_strings(&node.tags),
        backlinks: clone_strings(&node.linked_from),
        last_modified,
        preview,
        pdf_galleries: galleries,
    }
}

/// Whether an output file or directory named `name` belongs to no node (it
/// is then removed).
pub fn is_orphan(name: &str, nodes: &[NodeFile]) -> (r: bool)
    ensures
        r == !(exists|i: int| 0 <= i < nodes@.len() && #[trigger] nodes@[i].id@ == name@),
{
    let n = nodes.len();
    let mut i: usize = 0;
    while i < n
        invariant
            i <= n == nodes@.len(),
            forall|k: int| 0 <= k < i ==> #[trigger] nodes@[k].id@ != name@,
        decreases n - i,
    {
        if crate::text::str_is(nodes[i].id.as_str(), name) {
            return false;
        }
        i = i + 1;
    }
    true
}

/// `path` with a leading `~` replaced by `home`.
pub open spec fn expand_tilde_spec(path: Seq<char>, home: Seq<char>) -> Seq<char> {
    if path.len() > 0 && path[0] == '~' {
        home + path.skip(1)
    } else {
        path
    }
}

/// Expand ~ to the home directory.
pub fn expand_tilde(path: &str, home: &str) -> (r: String)
    ensures
        r@ == expand_tilde_spec(path@, home@),
{
    let n = path.unicode_len();
    if n > 0 && path.get_char(0) == '~' {
        let mut out = String::from_str(home);
        let rest = path.substring_char(1, n);
        out.append(rest);
        out
    } else {
        String::from_str(path)
    }
}

/// The ids listed for a run of entries are those of the first part, then
/// those of the second: the list keeps the entries' order.
pub proof fn law_listed_ids_concat(a: Seq<Json>, b: Seq<Json>)
    ensures
        listed_ids_spec(a + b) == listed_ids_spec(a) + listed_ids_spec(b),
    decreases b.len(),
{
    if b.len() == 0 {
        assert(a + b =~= a);
        assert(listed_ids_spec(a) + Seq::<Seq<char>>::empty() =~= listed_ids_spec(a));
    } else {
        assert((a + b).drop_last() =~= a + b.drop_last());
        law_listed_ids_concat(a, b.drop_last());
    }
}

/// One entry lists its `id` where that is a string, and nothing otherwise.
pub proof fn law_listed_ids_single(x: Json)
    ensures
        listed_ids_spec(seq![x]) == match member_text(x, "id"@) {
            Some(id) => seq![id],
            None => Seq::<Seq<char>>::empty(),
        },
{
    let e = seq![x];
    assert(e.drop_last() =~= Seq::<Json>::empty());
    assert(e.last() == x);
    assert(listed_ids_spec(e.drop_last()) == Seq::<Seq<char>>::empty());
    match member_text(x, "id"@) {
        Some(id) => {
            assert(Seq::<Seq<char>>::empty() + seq![id] =~= seq![id]);
        },
        None => {
            assert(Seq::<Seq<char>>::empty() + Seq::<Seq<char>>::empty() =~= Seq::<Seq<char>>::empty());
        },
    }
}

/// A leading `~` is replaced by the home directory, once; any other path
/// is kept as it is.
pub proof fn law_expand_tilde(path: Seq<char>, home: Seq<char>)
    ensures
        path.len() > 0 && path[0] == '~' ==> expand_tilde_spec(path, home).take(home.len() as int)
            == home && expand_tilde_spec(path, home).skip(home.len() as int) == path.skip(1),
        !(path.len() > 0 && path[0] == '~') ==> expand_tilde_spec(path, home) == path,
{
    if path.len() > 0 && path[0] == '~' {
        let r = home + path.skip(1);
        assert(r.take(home.len() as int) =~= home);
        assert(r.skip(home.len() as int) =~= path.skip(1));
    }
}

} // verus!
