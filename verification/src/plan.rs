//! Pass one's product: three read-only lookup tables derived from the
//! indexed nodes — identifier to link slug, section source range to
//! output filename, and document path to file slug.

use vstd::prelude::*;
use vstd::seq_lib::*;
use vstd::string::*;

use crate::chars::{append_str, rfind_char, rfind_spec, str_eq};
use crate::index::{NodeEntry, NodeRec};
use crate::out_ext;
use crate::trusted::{slug_of, slugify};

verus! {

/// The file name portion of a path: everything after the last slash.
pub open spec fn base_name_spec(p: Seq<char>) -> Seq<char> {
    match rfind_spec(p, '/') {
        Some(i) => p.skip(i + 1),
        None => p,
    }
}

/// The base name with its extension stripped: everything before the
/// last dot, unless that dot leads the name.
pub open spec fn stem_spec(p: Seq<char>) -> Seq<char> {
    let b = base_name_spec(p);
    match rfind_spec(b, '.') {
        Some(i) => if i > 0 {
            b.take(i)
        } else {
            b
        },
        None => b,
    }
}

/// Strips directory part and extension from a path.
pub fn file_stem(path: &str) -> (r: String)
    ensures
        r@ == stem_spec(path@),
{
    let n = path.unicode_len();
    proof {
        crate::chars::lemma_rfind_spec(path@, '/');
    }
    let base = match rfind_char(path, '/') {
        Some(i) => {
            let b = path.substring_char(i + 1, n);
            proof {
                assert(path@.subrange(i + 1, n as int) =~= path@.skip(i + 1));
            }
            b
        },
        None => path,
    };
    proof {
        crate::chars::lemma_rfind_spec(base@, '.');
    }
    match rfind_char(base, '.') {
        Some(i) => if i > 0 {
            let r = base.substring_char(0, i).to_owned();
            proof {
                assert(base@.subrange(0, i as int) =~= base@.take(i as int));
            }
            r
        } else {
            base.to_owned()
        },
        None => base.to_owned(),
    }
}

/// The link slug a node's output goes by: the source file's stem for
/// a file root, the slugified title for a section.
pub open spec fn node_slug(n: NodeRec) -> Seq<char> {
    match n {
        NodeRec::FileRoot { path } => stem_spec(path@),
        NodeRec::Section { title, .. } => slug_of(title@),
    }
}

/// A row of the section-filename table: a section keyed by document
/// path and source range, with its output filename.
#[derive(Clone)]
pub struct SectionNameRow {
    pub path: String,
    pub start: u32,
    pub end: u32,
    pub name: String,
}

pub open spec fn id_rows_view(t: Seq<(u128, String)>) -> Seq<(u128, Seq<char>)> {
    t.map_values(|p: (u128, String)| (p.0, p.1@))
}

pub open spec fn section_rows_view(t: Seq<SectionNameRow>) -> Seq<(Seq<char>, u32, u32, Seq<char>)> {
    t.map_values(|r: SectionNameRow| (r.path@, r.start, r.end, r.name@))
}

pub open spec fn file_rows_view(t: Seq<(String, String)>) -> Seq<(Seq<char>, Seq<char>)> {
    t.map_values(|p: (String, String)| (p.0@, p.1@))
}

/// The identifier table rows for a list of entries: one per entry.
pub open spec fn id_rows_spec(s: Seq<NodeEntry>) -> Seq<(u128, Seq<char>)>
    decreases s.len(),
{
    if s.len() == 0 {
        Seq::empty()
    } else {
        seq![(s[0].id, node_slug(s[0].node))] + id_rows_spec(s.drop_first())
    }
}

/// The section table rows: one per section entry, in order.
pub open spec fn section_rows_spec(s: Seq<NodeEntry>) -> Seq<(Seq<char>, u32, u32, Seq<char>)>
    decreases s.len(),
{
    if s.len() == 0 {
        Seq::empty()
    } else {
        let rest = section_rows_spec(s.drop_first());
        match s[0].node {
            NodeRec::Section { path, title, start, end } => seq![
                (path@, start, end, slug_of(title@) + out_ext()),
            ] + rest,
            _ => rest,
        }
    }
}

/// The file table rows: one per file-root entry, in order.
pub open spec fn file_rows_spec(s: Seq<NodeEntry>) -> Seq<(Seq<char>, Seq<char>)>
    decreases s.len(),
{
    if s.len() == 0 {
        Seq::empty()
    } else {
        let rest = file_rows_spec(s.drop_first());
        match s[0].node {
            NodeRec::FileRoot { path } => seq![(path@, stem_spec(path@))] + rest,
            _ => rest,
        }
    }
}

/// Builds the identifier-to-slug table: every node's identifier maps
/// to its link slug.
pub fn id_filenames(entries: &Vec<NodeEntry>) -> (r: Vec<(u128, String)>)
    ensures
        id_rows_view(r@) == id_rows_spec(entries@),
{
    let n = entries.len();
    let mut r: Vec<(u128, String)> = Vec::new();
    proof {
        assert(entries@.skip(0) =~= entries@);
        assert(id_rows_view(r@) =~= Seq::<(u128, Seq<char>)>::empty());
    }
    for i in 0..n
        invariant
            n == entries@.len(),
            id_rows_spec(entries@) == id_rows_view(r@) + id_rows_spec(entries@.skip(i as int)),
    {
        proof {
            assert(entries@.skip(i as int)[0] == entries@[i as int]);
            assert(entries@.skip(i as int).drop_first() =~= entries@.skip(i + 1));
        }
        let ghost prev = r@;
        let e = &entries[i];
        let slug = match &e.node {
            NodeRec::FileRoot { path } => file_stem(path.as_str()),
            NodeRec::Section { title, .. } => slugify(title.as_str()),
        };
        r.push((e.id, slug));
        proof {
            assert(id_rows_view(r@) =~= id_rows_view(prev).push(
                (entries@[i as int].id, node_slug(entries@[i as int].node)),
            ));
            assert(id_rows_view(prev) + id_rows_spec(entries@.skip(i as int)) =~= id_rows_view(
                r@,
            ) + id_rows_spec(entries@.skip(i + 1)));
        }
    }
    proof {
        assert(entries@.skip(n as int) =~= Seq::<NodeEntry>::empty());
        assert(id_rows_spec(entries@) =~= id_rows_view(r@));
    }
    r
}

/// Builds the section-filename table: every section maps, by document
/// and source range, to its slug with the output extension.
pub fn section_filenames(entries: &Vec<NodeEntry>) -> (r: Vec<SectionNameRow>)
    ensures
        section_rows_view(r@) == section_rows_spec(entries@),
{
    let n = entries.len();
    let mut r: Vec<SectionNameRow> = Vec::new();
    proof {
        assert(entries@.skip(0) =~= entries@);
        assert(section_rows_view(r@) =~= Seq::<(Seq<char>, u32, u32, Seq<char>)>::empty());
    }
    for i in 0..n
        invariant
            n == entries@.len(),
            section_rows_spec(entries@) == section_rows_view(r@) + section_rows_spec(
                entries@.skip(i as int),
            ),
    {
        proof {
            assert(entries@.skip(i as int)[0] == entries@[i as int]);
            assert(entries@.skip(i as int).drop_first() =~= entries@.skip(i + 1));
        }
        let ghost prev = r@;
        let e = &entries[i];
        match &e.node {
            NodeRec::Section { path, title, start, end } => {
                let mut name = slugify(title.as_str());
                append_str(&mut name, ".md");
                let row = SectionNameRow {
                    path: path.clone(),
                    start: *start,
                    end: *end,
                    name,
                };
                r.push(row);
                proof {
                    assert(section_rows_view(r@) =~= section_rows_view(prev).push(
                        (path@, *start, *end, slug_of(title@) + out_ext()),
                    ));
                    assert(section_rows_view(prev) + section_rows_spec(entries@.skip(i as int))
                        =~= section_rows_view(r@) + section_rows_spec(entries@.skip(i + 1)));
                }
            },
            _ => {
                proof {
                    assert(section_rows_view(prev) + section_rows_spec(entries@.skip(i as int))
                        =~= section_rows_view(r@) + section_rows_spec(entries@.skip(i + 1)));
                }
            },
        }
    }
    proof {
        assert(entries@.skip(n as int) =~= Seq::<NodeEntry>::empty());
        assert(section_rows_spec(entries@) =~= section_rows_view(r@));
    }
    r
}

/// Builds the document-path-to-file-slug table.
pub fn file_slugs(entries: &Vec<NodeEntry>) -> (r: Vec<(String, String)>)
    ensures
        file_rows_view(r@) == file_rows_spec(entries@),
{
    let n = entries.len();
    let mut r: Vec<(String, String)> = Vec::new();
    proof {
        assert(entries@.skip(0) =~= entries@);
        assert(file_rows_view(r@) =~= Seq::<(Seq<char>, Seq<char>)>::empty());
    }
    for i in 0..n
        invariant
            n == entries@.len(),
            file_rows_spec(entries@) == file_rows_view(r@) + file_rows_spec(
                entries@.skip(i as int),
            ),
    {
        proof {
            assert(entries@.skip(i as int)[0] == entries@[i as int]);
            assert(entries@.skip(i as int).drop_first() =~= entries@.skip(i + 1));
        }
        let ghost prev = r@;
        let e = &entries[i];
        match &e.node {
            NodeRec::FileRoot { path } => {
                let stem = file_stem(path.as_str());
                r.push((path.clone(), stem));
                proof {
                    assert(file_rows_view(r@) =~= file_rows_view(prev).push(
                        (path@, stem_spec(path@)),
                    ));
                    assert(file_rows_view(prev) + file_rows_spec(entries@.skip(i as int))
                        =~= file_rows_view(r@) + file_rows_spec(entries@.skip(i + 1)));
                }
            },
            _ => {
                proof {
                    assert(file_rows_view(prev) + file_rows_spec(entries@.skip(i as int))
                        =~= file_rows_view(r@) + file_rows_spec(entries@.skip(i + 1)));
                }
            },
        }
    }
    proof {
        assert(entries@.skip(n as int) =~= Seq::<NodeEntry>::empty());
        assert(file_rows_spec(entries@) =~= file_rows_view(r@));
    }
    r
}

/// First match for an identifier in the identifier table.
pub open spec fn id_lookup(t: Seq<(u128, String)>, id: u128) -> Option<Seq<char>>
    decreases t.len(),
{
    if t.len() == 0 {
        None
    } else if t[0].0 == id {
        Some(t[0].1@)
    } else {
        id_lookup(t.drop_first(), id)
    }
}

/// Looks an identifier up in the identifier table.
pub fn lookup_id(t: &Vec<(u128, String)>, id: u128) -> (r: Option<String>)
    ensures
        match id_lookup(t@, id) {
            Some(v) => r matches Some(s) && s@ == v,
            None => r is None,
        },
{
    let n = t.len();
    proof {
        assert(t@.skip(0) =~= t@);
    }
    for i in 0..n
        invariant
            n == t@.len(),
            id_lookup(t@, id) == id_lookup(t@.skip(i as int), id),
    {
        proof {
            assert(t@.skip(i as int)[0] == t@[i as int]);
            assert(t@.skip(i as int).drop_first() =~= t@.skip(i + 1));
        }
        if t[i].0 == id {
            return Some(t[i].1.clone());
        }
    }
    None
}

/// First match for a (document, range) key in the section table.
pub open spec fn section_lookup(
    t: Seq<SectionNameRow>,
    path: Seq<char>,
    start: u32,
    end: u32,
) -> Option<Seq<char>>
    decreases t.len(),
{
    if t.len() == 0 {
        None
    } else if t[0].path@ == path && t[0].start == start && t[0].end == end {
        Some(t[0].name@)
    } else {
        section_lookup(t.drop_first(), path, start, end)
    }
}

/// Looks a section up by its document path and source range.
pub fn lookup_section(t: &Vec<SectionNameRow>, path: &str, start: u32, end: u32) -> (r: Option<
    String,
>)
    ensures
        match section_lookup(t@, path@, start, end) {
            Some(v) => r matches Some(s) && s@ == v,
            None => r is None,
        },
{
    let n = t.len();
    proof {
        assert(t@.skip(0) =~= t@);
    }
    for i in 0..n
        invariant
            n == t@.len(),
            section_lookup(t@, path@, start, end) == section_lookup(
                t@.skip(i as int),
                path@,
                start,
                end,
            ),
    {
        proof {
            assert(t@.skip(i as int)[0] == t@[i as int]);
            assert(t@.skip(i as int).drop_first() =~= t@.skip(i + 1));
        }
        let row = &t[i];
        if str_eq(row.path.as_str(), path) && row.start == start && row.end == end {
            return Some(row.name.clone());
        }
    }
    None
}

/// First match for a document path in the file table.
pub open spec fn file_lookup(t: Seq<(String, String)>, path: Seq<char>) -> Option<Seq<char>>
    decreases t.len(),
{
    if t.len() == 0 {
        None
    } else if t[0].0@ == path {
        Some(t[0].1@)
    } else {
        file_lookup(t.drop_first(), path)
    }
}

/// Looks a document path up in the file table.
pub fn lookup_file(t: &Vec<(String, String)>, path: &str) -> (r: Option<String>)
    ensures
        match file_lookup(t@, path@) {
            Some(v) => r matches Some(s) && s@ == v,
            None => r is None,
        },
{
    let n = t.len();
    proof {
        assert(t@.skip(0) =~= t@);
    }
    for i in 0..n
        invariant
            n == t@.len(),
            file_lookup(t@, path@) == file_lookup(t@.skip(i as int), path@),
    {
        proof {
            assert(t@.skip(i as int)[0] == t@[i as int]);
            assert(t@.skip(i as int).drop_first() =~= t@.skip(i + 1));
        }
        let row = &t[i];
        if str_eq(row.0.as_str(), path) {
            return Some(row.1.clone());
        }
    }
    None
}

} // verus!
