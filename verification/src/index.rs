//! Pass one: scan a document's traversal events for stable
//! identifiers, producing the corpus nodes, and check identifiers for
//! uniqueness across the corpus.

use vstd::prelude::*;
use vstd::seq_lib::*;
use vstd::string::*;

use crate::chars::{has_prefix, trim_spec, trim_ws};
use crate::events::OrgEvent;
use crate::trusted::{parse_uuid, uuid_of};

verus! {

/// An identified content unit: a whole file, or one section of it.
#[derive(Debug)]
pub enum NodeRec {
    FileRoot { path: String },
    Section { path: String, title: String, start: u32, end: u32 },
}

/// One (identifier, node) pair found during indexing.
#[derive(Debug)]
pub struct NodeEntry {
    pub id: u128,
    pub node: NodeRec,
}

/// A fatal indexing failure: a malformed identifier, or the same
/// identifier on two nodes of the corpus.
#[derive(Debug)]
pub enum IndexError {
    InvalidIdentifier { path: String, context: String, raw: String },
    DuplicateIdentifier { id: u128, first: NodeRec, second: NodeRec },
}

impl NodeRec {
    /// A structurally equal copy.
    pub fn duplicate(&self) -> (r: NodeRec)
        ensures
            r == *self,
    {
        match self {
            NodeRec::FileRoot { path } => NodeRec::FileRoot { path: path.clone() },
            NodeRec::Section { path, title, start, end } => NodeRec::Section {
                path: path.clone(),
                title: title.clone(),
                start: *start,
                end: *end,
            },
        }
    }
}

/// The ghost image of a node entry.
pub enum NodeModel {
    FileRoot { id: u128, path: Seq<char> },
    Section { id: u128, path: Seq<char>, title: Seq<char>, start: u32, end: u32 },
}

pub open spec fn entry_view(e: NodeEntry) -> NodeModel {
    match e.node {
        NodeRec::FileRoot { path } => NodeModel::FileRoot { id: e.id, path: path@ },
        NodeRec::Section { path, title, start, end } => NodeModel::Section {
            id: e.id,
            path: path@,
            title: title@,
            start,
            end,
        },
    }
}

/// The ghost image of a list of node entries.
pub open spec fn entries_view(s: Seq<NodeEntry>) -> Seq<NodeModel> {
    s.map_values(|e: NodeEntry| entry_view(e))
}

/// The identity value of the first property line carrying the
/// identity key, trimmed, if any line carries it.
pub open spec fn find_id_prop(props: Seq<String>) -> Option<Seq<char>>
    decreases props.len(),
{
    if props.len() == 0 {
        None
    } else if ":ID:"@.is_prefix_of(props[0]@) {
        Some(trim_spec(props[0]@.skip(":ID:"@.len() as int)))
    } else {
        find_id_prop(props.drop_first())
    }
}

/// Scans property lines for the identity key.
pub fn scan_id_prop(props: &Vec<String>) -> (r: Option<String>)
    ensures
        match find_id_prop(props@) {
            Some(v) => r matches Some(s) && s@ == v,
            None => r is None,
        },
{
    let n = props.len();
    proof {
        assert(props@.skip(0) =~= props@);
    }
    for i in 0..n
        invariant
            n == props@.len(),
            find_id_prop(props@) == find_id_prop(props@.skip(i as int)),
    {
        proof {
            assert(props@.skip(i as int)[0] == props@[i as int]);
            assert(props@.skip(i as int).drop_first() =~= props@.skip(i + 1));
        }
        let p = &props[i];
        if has_prefix(p.as_str(), ":ID:") {
            let pl = ":ID:".unicode_len();
            let n2 = p.as_str().unicode_len();
            let rest = p.as_str().substring_char(pl, n2);
            let v = trim_ws(rest);
            proof {
                assert(p@.subrange(pl as int, n2 as int) =~= p@.skip(":ID:"@.len() as int));
            }
            return Some(v);
        }
    }
    None
}

/// The indexing pass's running state.
pub struct IdxSt {
    pub entered: bool,
    pub file_id: Option<u128>,
    pub sections: Seq<NodeModel>,
    pub err: Option<(Seq<char>, Seq<char>)>,
}

pub open spec fn idx_init() -> IdxSt {
    IdxSt { entered: false, file_id: None, sections: Seq::empty(), err: None }
}

/// One indexing transition. A file-level identity property before the
/// first headline registers the file; an identity property on a
/// headline registers a section; a malformed identity is a fatal
/// error, recorded once.
pub open spec fn idx_step(path: Seq<char>, st: IdxSt, e: OrgEvent) -> IdxSt {
    if st.err is Some {
        st
    } else {
        match e {
            OrgEvent::PropertyDrawer { props } => {
                if st.entered {
                    st
                } else {
                    match find_id_prop(props@) {
                        Some(raw) => match uuid_of(raw) {
                            Some(u) => IdxSt { file_id: Some(u), ..st },
                            None => IdxSt { err: Some(("file"@, raw)), ..st },
                        },
                        None => st,
                    }
                }
            },
            OrgEvent::EnterHeadline(h) => {
                let st1 = IdxSt { entered: true, ..st };
                match find_id_prop(h.props@) {
                    Some(raw) => match uuid_of(raw) {
                        Some(u) => IdxSt {
                            sections: st1.sections.push(
                                NodeModel::Section {
                                    id: u,
                                    path: path,
                                    title: h.title@,
                                    start: h.start,
                                    end: h.end,
                                },
                            ),
                            ..st1
                        },
                        None => IdxSt { err: Some((h.title@, raw)), ..st1 },
                    },
                    None => st1,
                }
            },
            _ => st,
        }
    }
}

pub open spec fn idx_run(path: Seq<char>, st: IdxSt, evs: Seq<OrgEvent>) -> IdxSt
    decreases evs.len(),
{
    if evs.len() == 0 {
        st
    } else {
        idx_run(path, idx_step(path, st, evs[0]), evs.drop_first())
    }
}

pub proof fn lemma_idx_run_snoc(path: Seq<char>, st: IdxSt, evs: Seq<OrgEvent>, e: OrgEvent)
    ensures
        idx_run(path, st, evs.push(e)) == idx_step(path, idx_run(path, st, evs), e),
    decreases evs.len(),
{
    if evs.len() == 0 {
        assert(evs.push(e)[0] == e);
        assert(evs.push(e).drop_first() =~= Seq::<OrgEvent>::empty());
        assert(idx_run(path, idx_step(path, st, e), Seq::<OrgEvent>::empty()) == idx_step(
            path,
            st,
            e,
        ));
        assert(idx_run(path, st, evs.push(e)) == idx_run(
            path,
            idx_step(path, st, e),
            evs.push(e).drop_first(),
        ));
        assert(idx_run(path, st, evs) == st);
    } else {
        assert(evs.push(e)[0] == evs[0]);
        assert(evs.push(e).drop_first() =~= evs.drop_first().push(e));
        lemma_idx_run_snoc(path, idx_step(path, st, evs[0]), evs.drop_first(), e);
        assert(idx_run(path, st, evs.push(e)) == idx_run(
            path,
            idx_step(path, st, evs[0]),
            evs.drop_first().push(e),
        ));
        assert(idx_run(path, st, evs) == idx_run(
            path,
            idx_step(path, st, evs[0]),
            evs.drop_first(),
        ));
    }
}

pub proof fn lemma_idx_run_err(path: Seq<char>, st: IdxSt, evs: Seq<OrgEvent>)
    requires
        st.err is Some,
    ensures
        idx_run(path, st, evs) == st,
    decreases evs.len(),
{
    if evs.len() > 0 {
        lemma_idx_run_err(path, st, evs.drop_first());
    }
}

/// The entries a successful document scan yields: the file root, if
/// the document carries a file identity, then its sections in
/// encounter order.
pub open spec fn idx_entries(path: Seq<char>, st: IdxSt) -> Seq<NodeModel> {
    (match st.file_id {
        Some(u) => seq![NodeModel::FileRoot { id: u, path: path }],
        None => Seq::empty(),
    }) + st.sections
}

/// What indexing one document yields: its node entries, or the first
/// fatal error.
pub open spec fn doc_index_spec(path: Seq<char>, evs: Seq<OrgEvent>) -> Result<
    Seq<NodeModel>,
    (Seq<char>, Seq<char>),
> {
    let st = idx_run(path, idx_init(), evs);
    match st.err {
        Some(e) => Err(e),
        None => Ok(idx_entries(path, st)),
    }
}

/// Pass one over one document: registers the file's identity, if it
/// has one before the first headline, and every identified headline;
/// fails on the first malformed identifier.
pub fn index_document(path: &str, events: &Vec<OrgEvent>) -> (r: Result<
    Vec<NodeEntry>,
    IndexError,
>)
    ensures
        match doc_index_spec(path@, events@) {
            Ok(models) => r matches Ok(v) && entries_view(v@) == models,
            Err(em) => r matches Err(e) && e matches IndexError::InvalidIdentifier {
                path: ep,
                context,
                raw,
            } && ep@ == path@ && context@ == em.0 && raw@ == em.1,
        },
{
    let n = events.len();
    let mut entered = false;
    let mut file_id: Option<u128> = None;
    let mut sections: Vec<NodeEntry> = Vec::new();
    let ghost path_v = path@;
    proof {
        assert(events@.take(0) =~= Seq::<OrgEvent>::empty());
        assert(idx_run(path_v, idx_init(), events@.take(0)) == idx_init());
        assert(entries_view(Seq::<NodeEntry>::empty()) =~= Seq::<NodeModel>::empty());
    }
    for i in 0..n
        invariant
            n == events@.len(),
            idx_run(path_v, idx_init(), events@.take(i as int)).err is None,
            idx_run(path_v, idx_init(), events@.take(i as int)).entered == entered,
            idx_run(path_v, idx_init(), events@.take(i as int)).file_id == file_id,
            entries_view(sections@) == idx_run(
                path_v,
                idx_init(),
                events@.take(i as int),
            ).sections,
            path_v == path@,
    {
        let ghost st = idx_run(path_v, idx_init(), events@.take(i as int));
        proof {
            assert(events@.take(i + 1) =~= events@.take(i as int).push(events@[i as int]));
            lemma_idx_run_snoc(path_v, idx_init(), events@.take(i as int), events@[i as int]);
        }
        let e = &events[i];
        match e {
            OrgEvent::PropertyDrawer { props } => {
                if !entered {
                    match scan_id_prop(props) {
                        Some(raw) => match parse_uuid(raw.as_str()) {
                            Some(u) => {
                                file_id = Some(u);
                            },
                            None => {
                                proof {
                                    let st1 = idx_step(path_v, st, events@[i as int]);
                                    lemma_idx_run_err(
                                        path_v,
                                        st1,
                                        events@.skip(i + 1),
                                    );
                                    lemma_idx_run_split(path_v, idx_init(), events@, i + 1);
                                }
                                return Err(IndexError::InvalidIdentifier {
                                    path: path.to_owned(),
                                    context: "file".to_owned(),
                                    raw,
                                });
                            },
                        },
                        None => {},
                    }
                }
            },
            OrgEvent::EnterHeadline(h) => {
                entered = true;
                match scan_id_prop(&h.props) {
                    Some(raw) => match parse_uuid(raw.as_str()) {
                        Some(u) => {
                            let ghost old_secs = sections@;
                            let ne = NodeEntry {
                                id: u,
                                node: NodeRec::Section {
                                    path: path.to_owned(),
                                    title: h.title.clone(),
                                    start: h.start,
                                    end: h.end,
                                },
                            };
                            let ghost nev = ne;
                            proof {
                                assert(entry_view(nev) == NodeModel::Section {
                                    id: u,
                                    path: path_v,
                                    title: h.title@,
                                    start: h.start,
                                    end: h.end,
                                });
                            }
                            sections.push(ne);
                            proof {
                                let st2 = idx_run(
                                    path_v,
                                    idx_init(),
                                    events@.take(i + 1),
                                );
                                assert(st2 == idx_step(path_v, st, events@[i as int]));
                                assert(st2.sections == st.sections.push(
                                    NodeModel::Section {
                                        id: u,
                                        path: path_v,
                                        title: h.title@,
                                        start: h.start,
                                        end: h.end,
                                    },
                                ));
                                assert(entries_view(sections@) =~= entries_view(
                                    old_secs,
                                ).push(entry_view(nev)));
                            }
                        },
                        None => {
                            proof {
                                let st1 = idx_step(path_v, st, events@[i as int]);
                                lemma_idx_run_err(path_v, st1, events@.skip(i + 1));
                                lemma_idx_run_split(path_v, idx_init(), events@, i + 1);
                            }
                            return Err(IndexError::InvalidIdentifier {
                                path: path.to_owned(),
                                context: h.title.clone(),
                                raw,
                            });
                        },
                    },
                    None => {},
                }
            },
            _ => {},
        }
    }
    proof {
        assert(events@.take(n as int) =~= events@);
    }
    let ghost stf = idx_run(path_v, idx_init(), events@);
    let mut out: Vec<NodeEntry> = Vec::new();
    match file_id {
        Some(u) => {
            let fe = NodeEntry { id: u, node: NodeRec::FileRoot { path: path.to_owned() } };
            proof {
                assert(entry_view(fe) == NodeModel::FileRoot { id: u, path: path_v });
            }
            out.push(fe);
        },
        None => {},
    }
    let ghost secs = sections@;
    out.append(&mut sections);
    proof {
        let models = idx_entries(path_v, stf);
        match stf.file_id {
            Some(u) => {
                let fpart = seq![NodeModel::FileRoot { id: u, path: path_v }];
                assert(models == fpart + stf.sections);
                assert(entries_view(out@) =~= models);
            },
            None => {
                assert(out@ =~= secs);
                assert(models == Seq::<NodeModel>::empty() + stf.sections);
                assert(entries_view(out@) =~= models);
            },
        }
    }
    Ok(out)
}

/// Running over a split event sequence runs over its two halves.
pub proof fn lemma_idx_run_split(path: Seq<char>, st: IdxSt, evs: Seq<OrgEvent>, mid: int)
    requires
        0 <= mid <= evs.len(),
    ensures
        idx_run(path, st, evs) == idx_run(
            path,
            idx_run(path, st, evs.take(mid)),
            evs.skip(mid),
        ),
    decreases mid,
{
    if mid == 0 {
        assert(evs.take(0) =~= Seq::<OrgEvent>::empty());
        assert(evs.skip(0) =~= evs);
    } else {
        assert(evs.take(mid)[0] == evs[0]);
        assert(evs.take(mid).drop_first() =~= evs.drop_first().take(mid - 1));
        assert(evs.skip(mid) =~= evs.drop_first().skip(mid - 1));
        lemma_idx_run_split(path, idx_step(path, st, evs[0]), evs.drop_first(), mid - 1);
    }
}

/// The first pair of positions bearing the same identifier in a
/// prefix scan: no earlier second position, and for it no earlier
/// first position.
pub open spec fn dup_before(s: Seq<NodeEntry>, j: int, i: int) -> Option<int>
    decreases j - i,
{
    if i < 0 || i >= j {
        None
    } else if s[i].id == s[j].id {
        Some(i)
    } else {
        dup_before(s, j, i + 1)
    }
}

pub open spec fn first_dup_from(s: Seq<NodeEntry>, j: int) -> Option<(int, int)>
    decreases s.len() - j,
{
    if j < 0 || j >= s.len() {
        None
    } else {
        match dup_before(s, j, 0) {
            Some(i) => Some((i, j)),
            None => first_dup_from(s, j + 1),
        }
    }
}

pub open spec fn first_dup(s: Seq<NodeEntry>) -> Option<(int, int)> {
    first_dup_from(s, 0)
}

proof fn lemma_dup_before(s: Seq<NodeEntry>, j: int, i: int)
    requires
        0 <= i <= j < s.len(),
    ensures
        match dup_before(s, j, i) {
            Some(k) => i <= k < j && s[k].id == s[j].id && (forall|k2: int|
                i <= k2 < k ==> (#[trigger] s[k2].id) != s[j].id),
            None => forall|k2: int| i <= k2 < j ==> (#[trigger] s[k2].id) != s[j].id,
        },
    decreases j - i,
{
    if i < j && s[i].id != s[j].id {
        lemma_dup_before(s, j, i + 1);
    }
}

proof fn lemma_first_dup_from(s: Seq<NodeEntry>, j: int)
    requires
        0 <= j <= s.len(),
    ensures
        match first_dup_from(s, j) {
            Some(p) => 0 <= p.0 < p.1 < s.len() && j <= p.1 && s[p.0].id == s[p.1].id && (forall|
                i2: int,
                j2: int,
            |
                0 <= i2 < j2 < p.1 && j <= j2 ==> (#[trigger] s[i2].id) != (#[trigger] s[j2].id))
                && (forall|i2: int| 0 <= i2 < p.0 ==> (#[trigger] s[i2].id) != s[p.1].id),
            None => forall|i2: int, j2: int|
                0 <= i2 < j2 < s.len() && j <= j2 ==> (#[trigger] s[i2].id) != (#[trigger] s[j2].id),
        },
    decreases s.len() - j,
{
    if j < s.len() {
        lemma_dup_before(s, j, 0);
        match dup_before(s, j, 0) {
            Some(_) => {},
            None => {
                lemma_first_dup_from(s, j + 1);
            },
        }
    }
}

/// Characterisation of `first_dup`: the earliest duplicated pair.
pub proof fn lemma_first_dup(s: Seq<NodeEntry>)
    ensures
        match first_dup(s) {
            Some(p) => 0 <= p.0 < p.1 < s.len() && s[p.0].id == s[p.1].id && (forall|
                i2: int,
                j2: int,
            | 0 <= i2 < j2 < p.1 ==> (#[trigger] s[i2].id) != (#[trigger] s[j2].id)) && (forall|
                i2: int,
            | 0 <= i2 < p.0 ==> (#[trigger] s[i2].id) != s[p.1].id),
            None => forall|i2: int, j2: int|
                0 <= i2 < j2 < s.len() ==> (#[trigger] s[i2].id) != (#[trigger] s[j2].id),
        },
{
    lemma_first_dup_from(s, 0);
}

/// Checks that no identifier occurs twice across the corpus; on the
/// first collision, reports the two occurrences.
pub fn check_unique(entries: &Vec<NodeEntry>) -> (r: Result<(), IndexError>)
    ensures
        match first_dup(entries@) {
            None => r is Ok,
            Some(p) => r matches Err(e) && e matches IndexError::DuplicateIdentifier {
                id,
                first,
                second,
            } && id == entries@[p.0].id && first == entries@[p.0].node && second
                == entries@[p.1].node,
        },
{
    let n = entries.len();
    for j in 0..n
        invariant
            n == entries@.len(),
            forall|i2: int, j2: int| 0 <= i2 < j2 < j ==> entries@[i2].id != entries@[j2].id,
    {
        for i in 0..j
            invariant
                j < n == entries@.len(),
                forall|i2: int, j2: int| 0 <= i2 < j2 < j ==> entries@[i2].id != entries@[j2].id,
                forall|i2: int| 0 <= i2 < i ==> entries@[i2].id != entries@[j as int].id,
        {
            if entries[i].id == entries[j].id {
                proof {
                    lemma_first_dup(entries@);
                }
                return Err(IndexError::DuplicateIdentifier {
                    id: entries[i].id,
                    first: entries[i].node.duplicate(),
                    second: entries[j].node.duplicate(),
                });
            }
        }
    }
    proof {
        lemma_first_dup(entries@);
    }
    Ok(())
}

} // verus!
