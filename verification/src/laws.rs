//! The library's cross-cutting guarantees, stated and proved over the
//! splitter's transition function.

use vstd::prelude::*;
use vstd::seq_lib::*;

use crate::chars::strip_all_spec;
use crate::events::{HeadlineInfo, LinkInfo, OrgEvent};
use crate::idfmt::uuid_str_of;
use crate::index::NodeRec;
use crate::plan::{id_lookup, node_slug, section_lookup, SectionNameRow};
use crate::split::{
    app_top, app_top_block, ctx_name_spec, finish_spec, has_export_tag, headline_preamble,
    init_model, pad_top, popped, rev_spec, run_events, run_from, step, step_link, KindModel,
    OutputModel, SplitModel, WarnModel,
};
use crate::trusted::uuid_of;

verus! {

/// Re-running the export on an unchanged document with unchanged
/// tables yields identical outputs: the whole pipeline is a function
/// of its inputs, with no other source of variation.
pub proof fn lemma_export_idempotent(
    doc_path: Seq<char>,
    ids: Seq<(u128, String)>,
    sections: Seq<SectionNameRow>,
    evs1: Seq<OrgEvent>,
    evs2: Seq<OrgEvent>,
)
    requires
        evs1 == evs2,
    ensures
        finish_spec(run_events(init_model(doc_path, ids, sections), evs1)) == finish_spec(
            run_events(init_model(doc_path, ids, sections), evs2),
        ),
{
}

/// A node's link slug depends only on its kind and on its title or
/// source filename: two sections with the same title, or two file
/// roots with the same path, get the same slug, whatever else differs.
pub proof fn lemma_slug_stability(a: NodeRec, b: NodeRec)
    requires
        (match (a, b) {
            (
                NodeRec::Section { title: t1, .. },
                NodeRec::Section { title: t2, .. },
            ) => t1@ == t2@,
            (NodeRec::FileRoot { path: p1 }, NodeRec::FileRoot { path: p2 }) => p1@ == p2@,
            _ => false,
        }),
    ensures
        node_slug(a) == node_slug(b),
{
}

/// Link round-trip: when a rendered link's identifier resolves to an
/// exported node, the open context's buffer gains a link using that
/// node's resolved slug, honouring a supplied description.
pub proof fn lemma_link_round_trip(m: SplitModel, l: LinkInfo, u: u128, f: Seq<char>)
    requires
        m.stack.len() > 0,
        "id:"@.is_prefix_of(l.path@),
        uuid_of(strip_all_spec(l.path@, "id:"@)) == Some(u),
        id_lookup(m.ids, u) == Some(f),
    ensures
        step(m, OrgEvent::EnterLink(l)).1,
        step(m, OrgEvent::EnterLink(l)).0.stack.len() == m.stack.len(),
        step(m, OrgEvent::EnterLink(l)).0.stack.last().text == m.stack.last().text + (
        if l.has_description {
            "[["@ + f + "]["@ + l.description@ + "]]"@
        } else {
            "[["@ + f + "]]"@
        }),
        step(m, OrgEvent::EnterLink(l)).0.finished == m.finished,
{
    let r = step(m, OrgEvent::EnterLink(l));
    assert(r == step_link(m, l));
}

/// Unresolved-link resilience: a link whose identifier is absent from
/// the table (or malformed) still renders — the buffer gains a
/// literal placeholder naming the identifier, one diagnostic is
/// collected, and nothing is torn down.
pub proof fn lemma_unresolved_link(m: SplitModel, l: LinkInfo, u: u128)
    requires
        m.stack.len() > 0,
        "id:"@.is_prefix_of(l.path@),
        uuid_of(strip_all_spec(l.path@, "id:"@)) == Some(u),
        id_lookup(m.ids, u) is None,
    ensures
        step(m, OrgEvent::EnterLink(l)).1,
        step(m, OrgEvent::EnterLink(l)).0.stack.len() == m.stack.len(),
        step(m, OrgEvent::EnterLink(l)).0.stack.last().text == m.stack.last().text
            + "link to non-existent uuid "@ + uuid_str_of(u),
        step(m, OrgEvent::EnterLink(l)).0.finished == m.finished,
        step(m, OrgEvent::EnterLink(l)).0.warnings == m.warnings.push(
            WarnModel::UnresolvedLink {
                id_raw: uuid_str_of(u),
                description: l.description@,
                context: ctx_name_spec(m.stack.last().kind),
            },
        ),
{
    let r = step(m, OrgEvent::EnterLink(l));
    assert(r == step_link(m, l));
    assert(r.0.stack.last().text =~= m.stack.last().text + "link to non-existent uuid "@
        + uuid_str_of(u));
}

/// Table resilience: a table never fails the renderer — it yields a
/// placeholder line in the open buffer, one diagnostic, and the
/// traversal passes the table's contents over.
pub proof fn lemma_table_resilience(m: SplitModel, first_line: String)
    requires
        m.stack.len() > 0,
    ensures
        step(m, OrgEvent::EnterTable { first_line }).1,
        step(m, OrgEvent::EnterTable { first_line }).0 == (SplitModel {
            warnings: m.warnings.push(
                WarnModel::SkippedTable {
                    first_line: first_line@,
                    context: ctx_name_spec(m.stack.last().kind),
                },
            ),
            ..app_top_block(m, "skipped table\n"@)
        }),
{
}

proof fn lemma_split_point_top(stack: Seq<OutputModel>, lvl: usize)
    ensures
        ({
            let sp = crate::split::split_point(stack, lvl);
            sp > 0 ==> (stack[sp - 1].kind matches KindModel::Section { level, .. } ==> level
                < lvl)
        }),
    decreases stack.len(),
{
    if stack.len() > 0 {
        match stack.last().kind {
            KindModel::Section { level, .. } => {
                if level >= lvl {
                    lemma_split_point_top(stack.drop_last(), lvl);
                    crate::split::lemma_split_point_range(stack.drop_last(), lvl);
                    let sp = crate::split::split_point(stack, lvl);
                    if sp > 0 {
                        assert(stack[sp - 1] == stack.drop_last()[sp - 1]);
                    }
                }
            },
            KindModel::File => {},
        }
    }
}

/// Closing contexts at a headline's depth leaves an anchor strictly
/// shallower than the headline on top, if any section context
/// survives at all: the side condition under which headings are
/// depth-renormalised.
pub proof fn lemma_popped_top_shallower(m: SplitModel, lvl: usize)
    ensures
        ({
            let p = popped(m, lvl);
            p.stack.len() > 0 ==> (p.stack.last().kind matches KindModel::Section {
                level,
                ..
            } ==> level < lvl)
        }),
{
    lemma_split_point_top(m.stack, lvl);
    crate::split::lemma_split_point_range(m.stack, lvl);
    let sp = crate::split::split_point(m.stack, lvl);
    let p = popped(m, lvl);
    if p.stack.len() > 0 {
        assert(p.stack.last() == m.stack[sp - 1]);
    }
}

/// Somewhere in the front-matter lines stands the "key: value" line
/// of every collected entry.
pub proof fn lemma_ff_lines_contains(ff: Seq<(Seq<char>, Seq<char>)>, k: int)
    requires
        0 <= k < ff.len(),
    ensures
        ({
            let line = ff[k].0 + ": "@ + ff[k].1 + "\n"@;
            let whole = crate::split::ff_lines(ff);
            exists|i: int|
                0 <= i && i + line.len() <= whole.len() && #[trigger] whole.subrange(
                    i,
                    i + line.len(),
                ) == line
        }),
    decreases k,
{
    let line = ff[k].0 + ": "@ + ff[k].1 + "\n"@;
    let whole = crate::split::ff_lines(ff);
    let head = ff[0].0 + ": "@ + ff[0].1 + "\n"@;
    let rest = crate::split::ff_lines(ff.drop_first());
    assert(whole =~= head + rest);
    if k == 0 {
        assert(whole.subrange(0, 0 + line.len() as int) =~= line);
    } else {
        assert(ff.drop_first()[k - 1] == ff[k]);
        lemma_ff_lines_contains(ff.drop_first(), k - 1);
        assert(ff.drop_first()[k - 1].0 + ": "@ + ff.drop_first()[k - 1].1 + "\n"@ == line);
        let i0 = choose|i: int|
            0 <= i && i + line.len() <= rest.len() && #[trigger] rest.subrange(
                i,
                i + line.len(),
            ) == line;
        let i = i0 + head.len();
        assert(whole.subrange(i, i + line.len()) =~= rest.subrange(i0, i0 + line.len()));
        assert(whole.subrange(i, i + line.len()) == line);
    }
}

/// Front-matter title in the file output: when a title entry was
/// collected from the document's keywords or file-level drawer, the
/// finished file output's front-matter block carries its line.
pub proof fn lemma_file_title_present(m: SplitModel, k: int, v: Seq<char>)
    requires
        0 <= k < m.file_front.len(),
        m.file_front[k] == ("title"@, v),
        m.stack.len() + m.finished.len() > 0,
        (m.finished + rev_spec(m.stack)).last().kind is File,
    ensures
        ({
            let outs = finish_spec(m);
            let line = "title: "@ + v + "\n"@;
            exists|i: int|
                0 <= i && i + line.len() <= outs.last().text.len()
                    && #[trigger] outs.last().text.subrange(i, i + line.len()) == line
        }),
{
    let all = m.finished + rev_spec(m.stack);
    lemma_rev_index(m.stack);
    assert(all.len() > 0);
    let pre = crate::split::file_preamble_spec(m.file_front);
    let txt = pre + all.last().text;
    let outs = finish_spec(m);
    assert(outs.last().text == txt);
    lemma_ff_lines_contains(m.file_front, k);
    let lines = crate::split::ff_lines(m.file_front);
    let line = "title: "@ + v + "\n"@;
    assert(m.file_front[k].0 + ": "@ + m.file_front[k].1 + "\n"@ =~= line) by {
        reveal_strlit("title");
        reveal_strlit(": ");
        reveal_strlit("title: ");
    }
    let i0 = choose|i: int|
        0 <= i && i + line.len() <= lines.len() && #[trigger] lines.subrange(i, i + line.len())
            == line;
    let i = i0 + "---\n"@.len();
    assert(pre =~= "---\n"@ + lines + "---\n\n"@);
    assert(txt.subrange(i, i + line.len()) =~= lines.subrange(i0, i0 + line.len()));
    assert(outs.last().text.subrange(i, i + line.len()) == line);
}

/// Depth renormalisation: inside a section context anchored at depth
/// `off`, a plain headline renders at its source depth minus the
/// anchor's, clamped to six — a child one level below its anchor
/// becomes a top-level heading of its file. The precondition that the
/// anchor is shallower than the headline is exactly what closing the
/// deeper contexts first establishes (`lemma_popped_top_shallower`).
pub proof fn lemma_depth_renormalisation(m: SplitModel, h: HeadlineInfo, off: usize)
    requires
        m.stack.len() > 0,
        m.stack.last().kind matches KindModel::Section { level, .. } && level == off,
        off < h.level,
        !has_export_tag(h.tags@),
    ensures
        ({
            let r = step(m, OrgEvent::EnterHeadline(h)).0;
            let depth = if h.level - off > 6 {
                6
            } else {
                h.level - off
            };
            r.stack.last().text == crate::chars::ensure_nl_spec(m.stack.last().text)
                + crate::split::hashes(depth as int) + " "@ + h.title@
        }),
{
    assert(crate::split::split_point(m.stack, h.level) == m.stack.len() as int);
    assert(m.stack.take(m.stack.len() as int) =~= m.stack);
    assert(m.stack.skip(m.stack.len() as int) =~= Seq::<OutputModel>::empty());
    assert(rev_spec(Seq::<OutputModel>::empty()) =~= Seq::<OutputModel>::empty());
    assert(m.finished + Seq::<OutputModel>::empty() =~= m.finished);
    let p = popped(m, h.level);
    assert(p.stack =~= m.stack);
}

pub proof fn lemma_rev_index<A>(s: Seq<A>)
    ensures
        rev_spec(s).len() == s.len(),
        forall|i: int| 0 <= i < s.len() ==> rev_spec(s)[i] == s[s.len() - 1 - i],
    decreases s.len(),
{
    if s.len() > 0 {
        lemma_rev_index(s.drop_last());
    }
}

/// Nesting correctness: three export-tagged headlines at strictly
/// increasing depths, from a fresh state, yield exactly three
/// outputs, innermost first, each carrying its own section's
/// front-matter seed; where the child's filename resolves, the
/// parent's body holds exactly a single embed reference to it in
/// place of the child's subtree.
pub proof fn lemma_nesting_three_levels(
    m0: SplitModel,
    h1: HeadlineInfo,
    h2: HeadlineInfo,
    h3: HeadlineInfo,
)
    requires
        m0.stack.len() == 0,
        m0.finished.len() == 0,
        has_export_tag(h1.tags@),
        has_export_tag(h2.tags@),
        has_export_tag(h3.tags@),
        h1.level < h2.level,
        h2.level < h3.level,
    ensures
        ({
            let m1 = step(m0, OrgEvent::EnterHeadline(h1)).0;
            let m2 = step(m1, OrgEvent::EnterHeadline(h2)).0;
            let m3 = step(m2, OrgEvent::EnterHeadline(h3)).0;
            let outs = finish_spec(m3);
            &&& outs.len() == 3
            &&& outs[0].kind == (KindModel::Section {
                level: h3.level,
                title: h3.title@,
                start: h3.start,
                end: h3.end,
            })
            &&& outs[1].kind == (KindModel::Section {
                level: h2.level,
                title: h2.title@,
                start: h2.start,
                end: h2.end,
            })
            &&& outs[2].kind == (KindModel::Section {
                level: h1.level,
                title: h1.title@,
                start: h1.start,
                end: h1.end,
            })
            &&& outs[0].text == headline_preamble(h3)
            &&& headline_preamble(h2).is_prefix_of(outs[1].text)
            &&& headline_preamble(h1).is_prefix_of(outs[2].text)
            &&& (section_lookup(m0.sections, m0.doc_path, h3.start, h3.end) matches Some(f)
                ==> outs[1].text == headline_preamble(h2) + ("![["@ + f + "]]\n\n"@))
            &&& (section_lookup(m0.sections, m0.doc_path, h2.start, h2.end) matches Some(f)
                ==> outs[2].text == headline_preamble(h1) + ("![["@ + f + "]]\n\n"@))
        }),
{
    let m1 = step(m0, OrgEvent::EnterHeadline(h1)).0;
    let m2 = step(m1, OrgEvent::EnterHeadline(h2)).0;
    let m3 = step(m2, OrgEvent::EnterHeadline(h3)).0;
    let s1 = OutputModel {
        kind: KindModel::Section {
            level: h1.level,
            title: h1.title@,
            start: h1.start,
            end: h1.end,
        },
        text: headline_preamble(h1),
    };
    assert(crate::split::split_point(m0.stack, h1.level) == 0);
    assert(m0.stack.take(0) =~= m0.stack);
    assert(m0.stack.skip(0) =~= Seq::<OutputModel>::empty());
    assert(rev_spec(Seq::<OutputModel>::empty()) =~= Seq::<OutputModel>::empty());
    assert(m0.finished + Seq::<OutputModel>::empty() =~= m0.finished);
    assert(m1.stack =~= seq![s1]);
    assert(m1.finished =~= m0.finished);

    assert(m1.stack.last() == s1);
    assert(crate::split::split_point(m1.stack, h2.level) == 1);
    assert(m1.stack.take(1) =~= m1.stack);
    assert(m1.stack.skip(1) =~= Seq::<OutputModel>::empty());
    assert(m1.finished + rev_spec(m1.stack.skip(1)) =~= m1.finished);
    let p2 = popped(m1, h2.level);
    assert(p2.stack =~= m1.stack);
    let m1b = SplitModel { entered_headline: true, ..p2 };
    assert(m1b.stack.len() == 1);
    let s2 = OutputModel {
        kind: KindModel::Section {
            level: h2.level,
            title: h2.title@,
            start: h2.start,
            end: h2.end,
        },
        text: headline_preamble(h2),
    };
    assert(m2.stack.len() == 2);
    assert(m2.stack.last() == s2);
    assert(m2.stack[0].kind == s1.kind);
    assert(headline_preamble(h1).is_prefix_of(m2.stack[0].text)) by {
        match section_lookup(m1b.sections, m1b.doc_path, h2.start, h2.end) {
            Some(f) => {
                assert(m2.stack[0].text == headline_preamble(h1) + ("![["@ + f + "]]\n\n"@));
                assert(headline_preamble(h1) =~= (headline_preamble(h1) + ("![["@ + f
                    + "]]\n\n"@)).subrange(0, headline_preamble(h1).len() as int));
            },
            None => {
                let t = "exported headline "@ + h2.title@ + " with no id"@;
                assert(m2.stack[0].text == headline_preamble(h1) + t);
                assert(headline_preamble(h1) =~= (headline_preamble(h1) + t).subrange(
                    0,
                    headline_preamble(h1).len() as int,
                ));
            },
        }
    }
    assert(m2.finished =~= m0.finished);

    assert(m2.stack.last().kind == s2.kind);
    assert(crate::split::split_point(m2.stack, h3.level) == 2);
    assert(m2.stack.take(2) =~= m2.stack);
    assert(m2.stack.skip(2) =~= Seq::<OutputModel>::empty());
    assert(m2.finished + rev_spec(m2.stack.skip(2)) =~= m2.finished);
    let p3 = popped(m2, h3.level);
    assert(p3.stack =~= m2.stack);
    let m2b = SplitModel { entered_headline: true, ..p3 };
    let s3 = OutputModel {
        kind: KindModel::Section {
            level: h3.level,
            title: h3.title@,
            start: h3.start,
            end: h3.end,
        },
        text: headline_preamble(h3),
    };
    assert(m3.stack.len() == 3);
    assert(m3.stack.last() == s3);
    assert(m3.stack[0].kind == s1.kind);
    assert(m3.stack[1].kind == s2.kind);
    assert(headline_preamble(h1).is_prefix_of(m3.stack[0].text)) by {
        assert(m3.stack[0].text == m2.stack[0].text);
        lemma_prefix_extend_law(headline_preamble(h1), m2.stack[0].text, Seq::empty());
        assert(m2.stack[0].text + Seq::<char>::empty() =~= m2.stack[0].text);
    }
    assert(headline_preamble(h2).is_prefix_of(m3.stack[1].text)) by {
        match section_lookup(m2b.sections, m2b.doc_path, h3.start, h3.end) {
            Some(f) => {
                assert(m3.stack[1].text == headline_preamble(h2) + ("![["@ + f + "]]\n\n"@));
                lemma_prefix_extend_law(
                    headline_preamble(h2),
                    headline_preamble(h2),
                    "![["@ + f + "]]\n\n"@,
                );
            },
            None => {
                let t = "exported headline "@ + h3.title@ + " with no id"@;
                assert(m3.stack[1].text == headline_preamble(h2) + t);
                lemma_prefix_extend_law(headline_preamble(h2), headline_preamble(h2), t);
            },
        }
    }
    assert(m3.finished =~= m0.finished);

    assert(m1.sections == m0.sections && m1.doc_path == m0.doc_path);
    assert(m2.sections == m0.sections && m2.doc_path == m0.doc_path);
    match section_lookup(m0.sections, m0.doc_path, h3.start, h3.end) {
        Some(f) => {
            assert(m3.stack[1].text == headline_preamble(h2) + ("![["@ + f + "]]\n\n"@));
        },
        None => {},
    }
    match section_lookup(m0.sections, m0.doc_path, h2.start, h2.end) {
        Some(f) => {
            assert(m2.stack[0].text == headline_preamble(h1) + ("![["@ + f + "]]\n\n"@));
            assert(m3.stack[0].text == m2.stack[0].text);
        },
        None => {},
    }

    let all = m3.finished + rev_spec(m3.stack);
    lemma_rev_index(m3.stack);
    assert(all.len() == 3);
    assert(all[0] == m3.stack[2]);
    assert(all[1] == m3.stack[1]);
    assert(all[2] == m3.stack[0]);
    assert(!(all.last().kind is File));
    assert(finish_spec(m3) == all);
}

proof fn lemma_prefix_extend_law(a: Seq<char>, b: Seq<char>, c: Seq<char>)
    requires
        a.is_prefix_of(b),
    ensures
        a.is_prefix_of(b + c),
{
    assert((b + c).subrange(0, a.len() as int) =~= b.subrange(0, a.len() as int));
}

/// A finished output whose context is a section carries that
/// section's front-matter seed at its head.
pub open spec fn sec_front_ok(o: OutputModel) -> bool {
    match o.kind {
        KindModel::Section { title, .. } => ("---\ntitle: "@ + title + "\n"@).is_prefix_of(
            o.text,
        ),
        KindModel::File => true,
    }
}

/// Every open and every finished context carries its front matter.
pub open spec fn fronted(m: SplitModel) -> bool {
    (forall|i: int| 0 <= i < m.stack.len() ==> sec_front_ok(#[trigger] m.stack[i])) && (forall|
        i: int,
    | 0 <= i < m.finished.len() ==> sec_front_ok(#[trigger] m.finished[i]))
}

proof fn lemma_sec_front_append(o: OutputModel, t: Seq<char>)
    requires
        sec_front_ok(o),
    ensures
        sec_front_ok(OutputModel { kind: o.kind, text: o.text + t }),
{
    match o.kind {
        KindModel::Section { title, .. } => {
            lemma_prefix_extend_law("---\ntitle: "@ + title + "\n"@, o.text, t);
        },
        KindModel::File => {},
    }
}

proof fn lemma_fronted_app_all(m: SplitModel)
    requires
        fronted(m),
    ensures
        forall|t: Seq<char>| fronted(#[trigger] app_top(m, t)),
        forall|t: Seq<char>| fronted(#[trigger] app_top_block(m, t)),
        fronted(pad_top(m)),
{
    assert forall|t: Seq<char>| fronted(#[trigger] app_top(m, t)) by {
        if m.stack.len() > 0 {
            let last = m.stack.len() - 1;
            lemma_sec_front_append(m.stack[last], t);
            assert forall|i: int|
                0 <= i < app_top(m, t).stack.len() implies sec_front_ok(
                #[trigger] app_top(m, t).stack[i],
            ) by {
                if i < last {
                    assert(app_top(m, t).stack[i] == m.stack[i]);
                }
            }
        }
    }
    assert forall|t: Seq<char>| fronted(#[trigger] app_top_block(m, t)) by {
        if m.stack.len() > 0 {
            let last = m.stack.len() - 1;
            let o = m.stack[last];
            match o.kind {
                KindModel::Section { title, .. } => {
                    let p = "---\ntitle: "@ + title + "\n"@;
                    assert(p.is_prefix_of(o.text));
                    if o.text.len() > 0 && !crate::chars::is_nl(o.text.last()) {
                        assert(o.text.push('\n') =~= o.text + seq!['\n']);
                        lemma_prefix_extend_law(p, o.text, seq!['\n']);
                    }
                    lemma_prefix_extend_law(p, crate::chars::ensure_nl_spec(o.text), t);
                },
                KindModel::File => {},
            }
            assert forall|i: int|
                0 <= i < app_top_block(m, t).stack.len() implies sec_front_ok(
                #[trigger] app_top_block(m, t).stack[i],
            ) by {
                if i < last {
                    assert(app_top_block(m, t).stack[i] == m.stack[i]);
                }
            }
        }
    }
    if m.stack.len() > 0 {
        let last = m.stack.len() - 1;
        let o = m.stack[last];
        match o.kind {
            KindModel::Section { title, .. } => {
                let p = "---\ntitle: "@ + title + "\n"@;
                if o.text.len() > 0 && !crate::chars::is_nl(o.text.last()) {
                    assert(o.text.push('\n') =~= o.text + seq!['\n']);
                    lemma_prefix_extend_law(p, o.text, seq!['\n']);
                }
            },
            KindModel::File => {},
        }
        assert forall|i: int|
            0 <= i < pad_top(m).stack.len() implies sec_front_ok(#[trigger] pad_top(m).stack[i]) by {
            if i < last {
                assert(pad_top(m).stack[i] == m.stack[i]);
            }
        }
    }
}

proof fn lemma_fronted_popped(m: SplitModel, lvl: usize)
    requires
        fronted(m),
    ensures
        fronted(popped(m, lvl)),
{
    crate::split::lemma_split_point_range(m.stack, lvl);
    let sp = crate::split::split_point(m.stack, lvl);
    lemma_rev_index(m.stack.skip(sp));
    let p = popped(m, lvl);
    assert forall|i: int| 0 <= i < p.stack.len() implies sec_front_ok(#[trigger] p.stack[i]) by {
        assert(p.stack[i] == m.stack[i]);
    }
    assert forall|i: int| 0 <= i < p.finished.len() implies sec_front_ok(
        #[trigger] p.finished[i],
    ) by {
        if i < m.finished.len() {
            assert(p.finished[i] == m.finished[i]);
        } else {
            let j = i - m.finished.len();
            assert(p.finished[i] == rev_spec(m.stack.skip(sp))[j]);
            assert(rev_spec(m.stack.skip(sp))[j] == m.stack.skip(sp)[m.stack.skip(sp).len() - 1
                - j]);
            assert(m.stack.skip(sp)[m.stack.skip(sp).len() - 1 - j] == m.stack[sp
                + m.stack.skip(sp).len() - 1 - j]);
        }
    }
}

/// One transition preserves front matter on every context.
pub proof fn lemma_fronted_step(m: SplitModel, e: OrgEvent)
    requires
        fronted(m),
    ensures
        fronted(step(m, e).0),
{
    lemma_fronted_app_all(m);
    match e {
        OrgEvent::Keyword { raw } => {
            let r = crate::split::step_keyword(m, raw@);
            assert forall|i: int| 0 <= i < r.stack.len() implies sec_front_ok(
                #[trigger] r.stack[i],
            ) by {
                if r.stack.len() == m.stack.len() + 1 {
                    if i > 0 {
                        assert(r.stack[i] == m.stack[i - 1]);
                    }
                } else {
                    assert(r.stack[i] == m.stack[i]);
                }
            }
        },
        OrgEvent::EnterHeadline(h) => {
            lemma_fronted_popped(m, h.level);
            let m1 = SplitModel { entered_headline: true, ..popped(m, h.level) };
            assert(fronted(m1));
            lemma_fronted_app_all(m1);
            if has_export_tag(h.tags@) {
                let m2 = if m1.stack.len() > 0 {
                    match section_lookup(m1.sections, m1.doc_path, h.start, h.end) {
                        Some(f) => app_top(m1, "![["@ + f + "]]\n\n"@),
                        None => SplitModel {
                            warnings: m1.warnings.push(
                                WarnModel::MissingSectionId { title: h.title@ },
                            ),
                            ..app_top(m1, "exported headline "@ + h.title@ + " with no id"@)
                        },
                    }
                } else {
                    m1
                };
                assert(fronted(m2));
                let newo = OutputModel {
                    kind: KindModel::Section {
                        level: h.level,
                        title: h.title@,
                        start: h.start,
                        end: h.end,
                    },
                    text: headline_preamble(h),
                };
                assert(sec_front_ok(newo)) by {
                    let p = "---\ntitle: "@ + h.title@ + "\n"@;
                    assert(p.is_prefix_of(p)) by {
                        assert(p.subrange(0, p.len() as int) =~= p);
                    }
                    lemma_prefix_extend_law(
                        p,
                        p,
                        crate::split::props_front(h.props@) + "---\n\n"@,
                    );
                    assert(p + (crate::split::props_front(h.props@) + "---\n\n"@)
                        =~= headline_preamble(h));
                }
                let r = step(m, e).0;
                assert forall|i: int| 0 <= i < r.stack.len() implies sec_front_ok(
                    #[trigger] r.stack[i],
                ) by {
                    if i < m2.stack.len() {
                        assert(r.stack[i] == m2.stack[i]);
                    } else {
                        assert(r.stack[i] == newo);
                    }
                }
            }
        },
        _ => {},
    }
}

pub proof fn lemma_fronted_run(m: SplitModel, evs: Seq<OrgEvent>, i: int, skipping: nat)
    requires
        fronted(m),
    ensures
        fronted(run_from(m, evs, i, skipping)),
    decreases evs.len() - i,
{
    if 0 <= i < evs.len() {
        let e = evs[i];
        if skipping > 0 {
            if crate::events::is_enter_spec(e) {
                lemma_fronted_run(m, evs, i + 1, skipping + 1);
            } else if crate::events::is_leave_spec(e) {
                lemma_fronted_run(m, evs, i + 1, (skipping - 1) as nat);
            } else {
                lemma_fronted_run(m, evs, i + 1, skipping);
            }
        } else {
            lemma_fronted_step(m, e);
            let r = step(m, e);
            if r.1 && crate::events::is_enter_spec(e) {
                lemma_fronted_run(r.0, evs, i + 1, 1);
            } else {
                lemma_fronted_run(r.0, evs, i + 1, 0);
            }
        }
    }
}

/// Front-matter presence: in a whole document's finished outputs,
/// every section output begins with its front-matter block carrying
/// its title, and the file output, which comes last when the file was
/// exported, begins with the front-matter delimiter.
pub proof fn lemma_front_matter_presence(
    doc_path: Seq<char>,
    ids: Seq<(u128, String)>,
    sections: Seq<SectionNameRow>,
    evs: Seq<OrgEvent>,
)
    ensures
        ({
            let outs = finish_spec(run_events(init_model(doc_path, ids, sections), evs));
            &&& forall|i: int| 0 <= i < outs.len() ==> sec_front_ok(#[trigger] outs[i])
            &&& (outs.len() > 0 && outs.last().kind is File ==> "---\n"@.is_prefix_of(
                outs.last().text,
            ))
        }),
{
    let m0 = init_model(doc_path, ids, sections);
    assert(fronted(m0));
    lemma_fronted_run(m0, evs, 0, 0);
    let m = run_events(m0, evs);
    let all = m.finished + rev_spec(m.stack);
    lemma_rev_index(m.stack);
    assert forall|i: int| 0 <= i < all.len() implies sec_front_ok(#[trigger] all[i]) by {
        if i < m.finished.len() {
            assert(all[i] == m.finished[i]);
        } else {
            let j = i - m.finished.len();
            assert(all[i] == rev_spec(m.stack)[j]);
            assert(rev_spec(m.stack)[j] == m.stack[m.stack.len() - 1 - j]);
        }
    }
    let outs = finish_spec(m);
    if all.len() > 0 && all.last().kind is File {
        let pre = crate::split::file_preamble_spec(m.file_front);
        assert("---\n"@.is_prefix_of(pre)) by {
            assert(pre =~= "---\n"@ + (crate::split::ff_lines(m.file_front) + "---\n\n"@));
            assert("---\n"@ =~= pre.subrange(0, "---\n"@.len() as int));
        }
        lemma_prefix_extend_law("---\n"@, pre, all.last().text);
        assert forall|i: int| 0 <= i < outs.len() implies sec_front_ok(#[trigger] outs[i]) by {
            if i < outs.len() - 1 {
                assert(outs[i] == all[i]);
            }
        }
    } else {
        assert(outs == all);
    }
}

} // verus!
