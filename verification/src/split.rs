//! Pass two: the document splitter. A stack machine walks one
//! document's events, opens an export context for every export-tagged
//! file or section, renders each construct into the innermost open
//! context's buffer, and finalises contexts as headline depth falls.

use vstd::prelude::*;
use vstd::seq_lib::*;
use vstd::string::*;

use crate::chars::{
    append_quoted, append_repeat, append_str, contains_segment, ensure_newline, ensure_nl_spec,
    has_prefix, has_segment, quote_text_spec, split_once_char, split_once_spec, strip_all,
    strip_all_spec, trim_spec, trim_ws,
};
use crate::events::{HeadlineInfo, LinkInfo, OrgEvent};
use crate::idfmt::{uuid_str_of, uuid_to_string};
use crate::plan::{id_lookup, lookup_id, lookup_section, section_lookup, SectionNameRow};
use crate::trusted::{parse_uuid, uuid_of};

verus! {

/// The section a section-scoped output is anchored at.
pub struct SectionAnchor {
    pub level: usize,
    pub title: String,
    pub start: u32,
    pub end: u32,
}

/// A currently open or finished output target: the whole file, or one
/// export-tagged headline.
pub enum ExportContext {
    File,
    Headline(SectionAnchor),
}

/// A diagnostic collected while splitting; the caller decides how to
/// report them.
pub enum Warning {
    MissingSectionId { title: String },
    UnresolvedLink { id_raw: String, description: String, context: String },
    SkippedTable { first_line: String, context: String },
}

#[verifier::ext_equal]
pub enum KindModel {
    File,
    Section { level: usize, title: Seq<char>, start: u32, end: u32 },
}

#[verifier::ext_equal]
pub struct OutputModel {
    pub kind: KindModel,
    pub text: Seq<char>,
}

#[verifier::ext_equal]
pub enum WarnModel {
    MissingSectionId { title: Seq<char> },
    UnresolvedLink { id_raw: Seq<char>, description: Seq<char>, context: Seq<char> },
    SkippedTable { first_line: Seq<char>, context: Seq<char> },
}

pub open spec fn kind_view(c: ExportContext) -> KindModel {
    match c {
        ExportContext::File => KindModel::File,
        ExportContext::Headline(a) => KindModel::Section {
            level: a.level,
            title: a.title@,
            start: a.start,
            end: a.end,
        },
    }
}

pub open spec fn outputs_view(s: Seq<(ExportContext, String)>) -> Seq<OutputModel> {
    s.map_values(|p: (ExportContext, String)| OutputModel { kind: kind_view(p.0), text: p.1@ })
}

pub open spec fn warn_view(w: Warning) -> WarnModel {
    match w {
        Warning::MissingSectionId { title } => WarnModel::MissingSectionId { title: title@ },
        Warning::UnresolvedLink { id_raw, description, context } => WarnModel::UnresolvedLink {
            id_raw: id_raw@,
            description: description@,
            context: context@,
        },
        Warning::SkippedTable { first_line, context } => WarnModel::SkippedTable {
            first_line: first_line@,
            context: context@,
        },
    }
}

pub open spec fn warns_view(s: Seq<Warning>) -> Seq<WarnModel> {
    s.map_values(|w: Warning| warn_view(w))
}

pub open spec fn ff_view(s: Seq<(String, String)>) -> Seq<(Seq<char>, Seq<char>)> {
    s.map_values(|p: (String, String)| (p.0@, p.1@))
}

/// The splitter's ghost state: the lookup tables, the accumulated
/// file-level front matter, the context stack, the finished outputs,
/// and the collected diagnostics.
#[verifier::ext_equal]
pub struct SplitModel {
    pub doc_path: Seq<char>,
    pub ids: Seq<(u128, String)>,
    pub sections: Seq<SectionNameRow>,
    pub file_front: Seq<(Seq<char>, Seq<char>)>,
    pub entered_headline: bool,
    pub inside_blockquote: bool,
    pub stack: Seq<OutputModel>,
    pub finished: Seq<OutputModel>,
    pub warnings: Seq<WarnModel>,
}

/// A sequence reversed, last element first.
pub open spec fn rev_spec<A>(s: Seq<A>) -> Seq<A>
    decreases s.len(),
{
    if s.len() == 0 {
        Seq::empty()
    } else {
        seq![s.last()] + rev_spec(s.drop_last())
    }
}

/// The name a context goes by in diagnostics.
pub open spec fn ctx_name_spec(k: KindModel) -> Seq<char> {
    match k {
        KindModel::File => "file"@,
        KindModel::Section { title, .. } => "'"@ + title + "'"@,
    }
}

pub open spec fn file_ctx_open(stack: Seq<OutputModel>) -> bool {
    exists|i: int| 0 <= i < stack.len() && stack[i].kind is File
}

/// The stack with its top buffer replaced.
pub open spec fn set_top(m: SplitModel, t: Seq<char>) -> SplitModel {
    let last = m.stack.len() - 1;
    SplitModel {
        stack: m.stack.update(last, OutputModel { kind: m.stack[last].kind, text: t }),
        ..m
    }
}

/// Appends text to the innermost open context, if one is open.
pub open spec fn app_top(m: SplitModel, t: Seq<char>) -> SplitModel {
    if m.stack.len() == 0 {
        m
    } else {
        set_top(m, m.stack.last().text + t)
    }
}

/// The whitespace policy applied to the top buffer: it ends in a line
/// break before new block-level output.
pub open spec fn pad_top(m: SplitModel) -> SplitModel {
    if m.stack.len() == 0 {
        m
    } else {
        set_top(m, ensure_nl_spec(m.stack.last().text))
    }
}

/// Block-level append: a line break is ensured first.
pub open spec fn app_top_block(m: SplitModel, t: Seq<char>) -> SplitModel {
    if m.stack.len() == 0 {
        m
    } else {
        set_top(m, ensure_nl_spec(m.stack.last().text) + t)
    }
}

/// Where the stack splits when a headline of depth `lvl` arrives:
/// every section context at depth `lvl` or deeper is closed.
pub open spec fn split_point(stack: Seq<OutputModel>, lvl: usize) -> int
    decreases stack.len(),
{
    if stack.len() == 0 {
        0
    } else {
        match stack.last().kind {
            KindModel::Section { level, .. } => if level >= lvl {
                split_point(stack.drop_last(), lvl)
            } else {
                stack.len() as int
            },
            KindModel::File => stack.len() as int,
        }
    }
}

pub proof fn lemma_split_point_range(stack: Seq<OutputModel>, lvl: usize)
    ensures
        0 <= split_point(stack, lvl) <= stack.len(),
    decreases stack.len(),
{
    if stack.len() > 0 {
        lemma_split_point_range(stack.drop_last(), lvl);
    }
}

/// The state after closing every section context at depth `lvl` or
/// deeper: each popped context becomes a finished output, innermost
/// first.
pub open spec fn popped(m: SplitModel, lvl: usize) -> SplitModel {
    let sp = split_point(m.stack, lvl);
    SplitModel {
        stack: m.stack.take(sp),
        finished: m.finished + rev_spec(m.stack.skip(sp)),
        ..m
    }
}

/// A property line's key and value: leading colons stripped, the rest
/// split at the first colon, the value trimmed.
pub open spec fn prop_kv(raw: Seq<char>) -> Option<(Seq<char>, Seq<char>)> {
    match split_once_spec(strip_all_spec(raw, ":"@), ':') {
        Some(kv) => Some((kv.0, trim_spec(kv.1))),
        None => None,
    }
}

/// The front-matter entries a property drawer contributes, in order;
/// lines without a value are passed over.
pub open spec fn drawer_entries(props: Seq<String>) -> Seq<(Seq<char>, Seq<char>)>
    decreases props.len(),
{
    if props.len() == 0 {
        Seq::empty()
    } else {
        (match prop_kv(props[0]@) {
            Some(kv) => seq![kv],
            None => Seq::<(Seq<char>, Seq<char>)>::empty(),
        }) + drawer_entries(props.drop_first())
    }
}

/// The "key: value" lines of a section's property drawer.
pub open spec fn props_front(props: Seq<String>) -> Seq<char>
    decreases props.len(),
{
    if props.len() == 0 {
        Seq::empty()
    } else {
        (match prop_kv(props[0]@) {
            Some(kv) => kv.0 + ": "@ + kv.1 + "\n"@,
            None => Seq::<char>::empty(),
        }) + props_front(props.drop_first())
    }
}

/// A section context's seed: its front matter, the title first, then
/// its own property-drawer entries.
pub open spec fn headline_preamble(h: HeadlineInfo) -> Seq<char> {
    "---\ntitle: "@ + h.title@ + "\n"@ + props_front(h.props@) + "---\n\n"@
}

pub open spec fn has_export_tag(tags: Seq<String>) -> bool {
    exists|i: int| 0 <= i < tags.len() && tags[i]@ == "export"@
}

/// The rendered depth of a headline inside a context anchored at
/// depth `off`: the difference, at least zero, at most six.
pub open spec fn clamp_level(hl: int, off: int) -> int {
    let d = if hl > off {
        hl - off
    } else {
        0
    };
    if d > 6 {
        6
    } else {
        d
    }
}

pub open spec fn anchor_offset(k: KindModel) -> int {
    match k {
        KindModel::File => 0,
        KindModel::Section { level, .. } => level as int,
    }
}

pub open spec fn hashes(n: int) -> Seq<char> {
    Seq::new(if n >= 0 {
        n as nat
    } else {
        0
    }, |i: int| '#')
}

/// What a keyword line does: a filetags line carrying the export tag
/// opens the file context, once; any other keyword becomes file-level
/// front matter.
pub open spec fn step_keyword(m: SplitModel, raw: Seq<char>) -> SplitModel {
    if "#+filetags"@.is_prefix_of(raw) {
        match split_once_spec(raw, ':') {
            Some(kv) => if has_segment(trim_spec(kv.1), ':', "export"@) && !file_ctx_open(
                m.stack,
            ) {
                SplitModel {
                    stack: seq![OutputModel { kind: KindModel::File, text: Seq::empty() }]
                        + m.stack,
                    ..m
                }
            } else {
                m
            },
            None => m,
        }
    } else {
        match split_once_spec(strip_all_spec(raw, "#+"@), ':') {
            Some(kv) => SplitModel {
                file_front: m.file_front.push((kv.0, trim_spec(kv.1))),
                ..m
            },
            None => m,
        }
    }
}

/// What a property drawer does: before the first headline its entries
/// join the file-level front matter; afterwards it is passed over.
pub open spec fn step_drawer(m: SplitModel, props: Seq<String>) -> SplitModel {
    if m.entered_headline {
        m
    } else {
        SplitModel { file_front: m.file_front + drawer_entries(props), ..m }
    }
}

/// What entering a headline does: contexts at its depth or deeper are
/// finalised; an export-tagged headline opens a new section context
/// seeded with its front matter, leaving an embed reference (or a
/// diagnosed placeholder) in the enclosing context; any other
/// headline renders as a depth-renormalised heading.
pub open spec fn step_headline(m: SplitModel, h: HeadlineInfo) -> SplitModel {
    let m1 = SplitModel { entered_headline: true, ..popped(m, h.level) };
    if has_export_tag(h.tags@) {
        let m2 = if m1.stack.len() > 0 {
            match section_lookup(m1.sections, m1.doc_path, h.start, h.end) {
                Some(f) => app_top(m1, "![["@ + f + "]]\n\n"@),
                None => SplitModel {
                    warnings: m1.warnings.push(WarnModel::MissingSectionId { title: h.title@ }),
                    ..app_top(m1, "exported headline "@ + h.title@ + " with no id"@)
                },
            }
        } else {
            m1
        };
        SplitModel {
            stack: m2.stack.push(
                OutputModel {
                    kind: KindModel::Section {
                        level: h.level,
                        title: h.title@,
                        start: h.start,
                        end: h.end,
                    },
                    text: headline_preamble(h),
                },
            ),
            ..m2
        }
    } else {
        if m1.stack.len() > 0 {
            let off = anchor_offset(m1.stack.last().kind);
            app_top_block(m1, hashes(clamp_level(h.level as int, off)) + " "@ + h.title@)
        } else {
            m1
        }
    }
}

/// What entering a link does, inside an open context. An
/// identifier link resolves through the identifier table, keeping a
/// supplied description; an unresolved or malformed identifier leaves
/// a diagnosed placeholder. A local-file link renders as an image
/// embed, a bare link, or an opened description link.
pub open spec fn step_link(m: SplitModel, l: LinkInfo) -> (SplitModel, bool) {
    if "id:"@.is_prefix_of(l.path@) {
        let idr = strip_all_spec(l.path@, "id:"@);
        match uuid_of(idr) {
            Some(u) => match id_lookup(m.ids, u) {
                Some(f) => (
                    app_top(
                        m,
                        if l.has_description {
                            "[["@ + f + "]["@ + l.description@ + "]]"@
                        } else {
                            "[["@ + f + "]]"@
                        },
                    ),
                    true,
                ),
                None => (
                    SplitModel {
                        warnings: m.warnings.push(
                            WarnModel::UnresolvedLink {
                                id_raw: uuid_str_of(u),
                                description: l.description@,
                                context: ctx_name_spec(m.stack.last().kind),
                            },
                        ),
                        ..app_top(m, "link to non-existent uuid "@ + uuid_str_of(u))
                    },
                    true,
                ),
            },
            None => (
                SplitModel {
                    warnings: m.warnings.push(
                        WarnModel::UnresolvedLink {
                            id_raw: idr,
                            description: l.description@,
                            context: ctx_name_spec(m.stack.last().kind),
                        },
                    ),
                    ..app_top(m, "link to non-existent uuid "@ + idr)
                },
                true,
            ),
        }
    } else {
        let p = strip_all_spec(l.path@, "file:"@);
        if l.is_image {
            (app_top(m, "![]("@ + p + ")"@), true)
        } else if !l.has_description {
            (app_top(m, "["@ + p + "]("@ + p + ")"@), true)
        } else {
            (app_top(m, "["@), false)
        }
    }
}

/// What a rendered construct appends, inside an open context.
pub open spec fn step_render(m: SplitModel, e: OrgEvent) -> (SplitModel, bool) {
    match e {
        OrgEvent::EnterParagraph => (m, false),
        OrgEvent::LeaveParagraph => (app_top(m, "\n"@), false),
        OrgEvent::EnterSection => (pad_top(m), false),
        OrgEvent::EnterItalic => (app_top(m, "*"@), false),
        OrgEvent::LeaveItalic => (app_top(m, "*"@), false),
        OrgEvent::EnterBold => (app_top(m, "**"@), false),
        OrgEvent::LeaveBold => (app_top(m, "**"@), false),
        OrgEvent::EnterStrike => (app_top(m, "~~"@), false),
        OrgEvent::LeaveStrike => (app_top(m, "~~"@), false),
        OrgEvent::EnterVerbatim => (app_top(m, "`"@), false),
        OrgEvent::LeaveVerbatim => (app_top(m, "`"@), false),
        OrgEvent::EnterCode => (app_top(m, "`"@), false),
        OrgEvent::LeaveCode => (app_top(m, "`"@), false),
        OrgEvent::EnterSourceBlock { language } => (
            app_top_block(
                m,
                "```"@ + match language {
                    Some(l) => l@,
                    None => Seq::<char>::empty(),
                },
            ),
            false,
        ),
        OrgEvent::LeaveSourceBlock => (app_top(m, "```\n"@), false),
        OrgEvent::EnterQuoteBlock => (
            SplitModel { inside_blockquote: true, ..app_top_block(m, "> "@) },
            false,
        ),
        OrgEvent::LeaveQuoteBlock => (SplitModel { inside_blockquote: false, ..m }, false),
        OrgEvent::EnterCommentBlock => (app_top(m, "<!--"@), false),
        OrgEvent::LeaveCommentBlock => (app_top(m, "-->"@), false),
        OrgEvent::EnterComment => (app_top(m, "<!--"@), false),
        OrgEvent::LeaveComment => (app_top(m, "-->"@), false),
        OrgEvent::EnterSubscript => (app_top(m, "<sub>"@), false),
        OrgEvent::LeaveSubscript => (app_top(m, "</sub>"@), false),
        OrgEvent::EnterSuperscript => (app_top(m, "<sup>"@), false),
        OrgEvent::LeaveSuperscript => (app_top(m, "</sup>"@), false),
        OrgEvent::EnterListItem { indent, bullet } => (
            app_top_block(m, Seq::new(indent as nat, |i: int| ' ') + bullet@),
            false,
        ),
        OrgEvent::EnterTable { first_line } => (
            SplitModel {
                warnings: m.warnings.push(
                    WarnModel::SkippedTable {
                        first_line: first_line@,
                        context: ctx_name_spec(m.stack.last().kind),
                    },
                ),
                ..app_top_block(m, "skipped table\n"@)
            },
            true,
        ),
        OrgEvent::EnterLink(l) => step_link(m, l),
        OrgEvent::LeaveLink { path } => (
            app_top(m, "]("@ + strip_all_spec(path@, "file:"@) + ")"@),
            false,
        ),
        OrgEvent::Text { text } => (
            app_top(
                m,
                if m.inside_blockquote {
                    quote_text_spec(text@)
                } else {
                    text@
                },
            ),
            false,
        ),
        OrgEvent::Rule => (app_top(m, "\n-----\n"@), false),
        OrgEvent::LatexFragment { raw } => (app_top(m, raw@), false),
        OrgEvent::LatexEnvironment { raw } => (app_top(m, raw@), false),
        OrgEvent::Entity { utf8 } => (app_top(m, utf8@), false),
        _ => (m, false),
    }
}

/// One splitter transition: what the event does to the state, and
/// whether the construct's children are passed over.
pub open spec fn step(m: SplitModel, e: OrgEvent) -> (SplitModel, bool) {
    match e {
        OrgEvent::Keyword { raw } => (step_keyword(m, raw@), true),
        OrgEvent::PropertyDrawer { props } => (step_drawer(m, props@), true),
        OrgEvent::EnterHeadline(h) => (step_headline(m, h), false),
        _ => if m.stack.len() == 0 {
            (m, false)
        } else {
            step_render(m, e)
        },
    }
}

/// The front-matter lines, each "key: value".
pub open spec fn ff_lines(ff: Seq<(Seq<char>, Seq<char>)>) -> Seq<char>
    decreases ff.len(),
{
    if ff.len() == 0 {
        Seq::empty()
    } else {
        ff[0].0 + ": "@ + ff[0].1 + "\n"@ + ff_lines(ff.drop_first())
    }
}

/// A file context's front-matter block.
pub open spec fn file_preamble_spec(ff: Seq<(Seq<char>, Seq<char>)>) -> Seq<char> {
    "---\n"@ + ff_lines(ff) + "---\n\n"@
}

/// What finishing yields: every still-open context finalised,
/// innermost first, and the file context's output, which comes last,
/// prefixed with the file-level front matter.
pub open spec fn finish_spec(m: SplitModel) -> Seq<OutputModel> {
    let all = m.finished + rev_spec(m.stack);
    if all.len() > 0 && all.last().kind is File {
        all.update(
            all.len() - 1,
            OutputModel {
                kind: KindModel::File,
                text: file_preamble_spec(m.file_front) + all.last().text,
            },
        )
    } else {
        all
    }
}

/// The splitter's starting state for one document.
pub open spec fn init_model(
    doc_path: Seq<char>,
    ids: Seq<(u128, String)>,
    sections: Seq<SectionNameRow>,
) -> SplitModel {
    SplitModel {
        doc_path: doc_path,
        ids: ids,
        sections: sections,
        file_front: Seq::empty(),
        entered_headline: false,
        inside_blockquote: false,
        stack: Seq::empty(),
        finished: Seq::empty(),
        warnings: Seq::empty(),
    }
}

/// The state after feeding the events from position `i` on, honouring
/// skips: after a skipped entered construct, events up to its
/// matching leave are passed over.
pub open spec fn run_from(m: SplitModel, evs: Seq<OrgEvent>, i: int, skipping: nat) -> SplitModel
    decreases evs.len() - i,
{
    if i < 0 || i >= evs.len() {
        m
    } else {
        let e = evs[i];
        if skipping > 0 {
            if crate::events::is_enter_spec(e) {
                run_from(m, evs, i + 1, skipping + 1)
            } else if crate::events::is_leave_spec(e) {
                run_from(m, evs, i + 1, (skipping - 1) as nat)
            } else {
                run_from(m, evs, i + 1, skipping)
            }
        } else {
            let r = step(m, e);
            if r.1 && crate::events::is_enter_spec(e) {
                run_from(r.0, evs, i + 1, 1)
            } else {
                run_from(r.0, evs, i + 1, 0)
            }
        }
    }
}

/// The state after a whole document's events.
pub open spec fn run_events(m: SplitModel, evs: Seq<OrgEvent>) -> SplitModel {
    run_from(m, evs, 0, 0)
}

/// The resolved output filename for a finished context: the file slug
/// with the output extension, or the section's table entry.
pub open spec fn output_name_spec(
    k: KindModel,
    doc: Seq<char>,
    files: Seq<(String, String)>,
    sections: Seq<SectionNameRow>,
) -> Option<Seq<char>> {
    match k {
        KindModel::File => match crate::plan::file_lookup(files, doc) {
            Some(stem) => Some(stem + crate::out_ext()),
            None => None,
        },
        KindModel::Section { start, end, .. } => section_lookup(sections, doc, start, end),
    }
}

/// Resolves the filename a finished context is written under; `None`
/// means the node carries an export marker but no identity, and is
/// skipped with a warning by the caller.
pub fn output_name(
    ctx: &ExportContext,
    doc_path: &str,
    files: &Vec<(String, String)>,
    sections: &Vec<SectionNameRow>,
) -> (r: Option<String>)
    ensures
        (match output_name_spec(kind_view(*ctx), doc_path@, files@, sections@) {
            Some(v) => r matches Some(s) && s@ == v,
            None => r is None,
        }),
{
    match ctx {
        ExportContext::File => {
            match crate::plan::lookup_file(files, doc_path) {
                Some(stem) => {
                    let mut s = stem;
                    append_str(&mut s, ".md");
                    Some(s)
                },
                None => None,
            }
        },
        ExportContext::Headline(a) => lookup_section(sections, doc_path, a.start, a.end),
    }
}

/// The document splitter and renderer: one per document, fed that
/// document's events in traversal order, then finished.
pub struct MarkdownExport {
    this_file: String,
    node_map: Vec<(u128, String)>,
    headline_map: Vec<SectionNameRow>,
    file_front_matter: Vec<(String, String)>,
    entered_headline: bool,
    inside_blockquote: bool,
    output_stack: Vec<(ExportContext, String)>,
    finished_outputs: Vec<(ExportContext, String)>,
    warnings: Vec<Warning>,
}

impl View for MarkdownExport {
    type V = SplitModel;

    closed spec fn view(&self) -> SplitModel {
        SplitModel {
            doc_path: self.this_file@,
            ids: self.node_map@,
            sections: self.headline_map@,
            file_front: ff_view(self.file_front_matter@),
            entered_headline: self.entered_headline,
            inside_blockquote: self.inside_blockquote,
            stack: outputs_view(self.output_stack@),
            finished: outputs_view(self.finished_outputs@),
            warnings: warns_view(self.warnings@),
        }
    }
}

/// Splits a property line into its key and trimmed value.
fn prop_kv_exec(raw: &String) -> (r: Option<(String, String)>)
    ensures
        match prop_kv(raw@) {
            Some(kv) => r matches Some(p) && p.0@ == kv.0 && p.1@ == kv.1,
            None => r is None,
        },
{
    let stripped = strip_all(raw.as_str(), ":");
    match split_once_char(stripped.as_str(), ':') {
        Some(pair) => {
            let v = trim_ws(pair.1.as_str());
            Some((pair.0, v))
        },
        None => None,
    }
}

/// Whether the tag list carries the export marker.
fn has_export(tags: &Vec<String>) -> (b: bool)
    ensures
        b == has_export_tag(tags@),
{
    let n = tags.len();
    for i in 0..n
        invariant
            n == tags@.len(),
            forall|k: int| 0 <= k < i ==> tags@[k]@ != "export"@,
    {
        if crate::chars::str_eq(tags[i].as_str(), "export") {
            proof {
                assert(tags@[i as int]@ == "export"@);
            }
            return true;
        }
    }
    false
}

/// The name a context goes by in diagnostics.
pub fn ctx_name(c: &ExportContext) -> (r: String)
    ensures
        r@ == ctx_name_spec(kind_view(*c)),
{
    match c {
        ExportContext::File => {
            let r = "file".to_owned();
            r
        },
        ExportContext::Headline(a) => {
            let mut r = "'".to_owned();
            append_str(&mut r, a.title.as_str());
            append_str(&mut r, "'");
            r
        },
    }
}

impl MarkdownExport {
    /// A fresh splitter for one document, holding the two lookup
    /// tables pass one produced.
    pub fn new(this_file: String, node_map: Vec<(u128, String)>, headline_map: Vec<
        SectionNameRow,
    >) -> (r: MarkdownExport)
        ensures
            r@ == (SplitModel {
                doc_path: this_file@,
                ids: node_map@,
                sections: headline_map@,
                file_front: Seq::empty(),
                entered_headline: false,
                inside_blockquote: false,
                stack: Seq::empty(),
                finished: Seq::empty(),
                warnings: Seq::empty(),
            }),
    {
        let r = MarkdownExport {
            this_file,
            node_map,
            headline_map,
            file_front_matter: Vec::new(),
            entered_headline: false,
            inside_blockquote: false,
            output_stack: Vec::new(),
            finished_outputs: Vec::new(),
            warnings: Vec::new(),
        };
        proof {
            assert(r@ =~~= SplitModel {
                doc_path: r.this_file@,
                ids: r.node_map@,
                sections: r.headline_map@,
                file_front: Seq::empty(),
                entered_headline: false,
                inside_blockquote: false,
                stack: Seq::empty(),
                finished: Seq::empty(),
                warnings: Seq::empty(),
            });
        }
        r
    }

    /// Whether a file context is already open.
    fn has_file_ctx(&self) -> (b: bool)
        ensures
            b == file_ctx_open(self@.stack),
    {
        let n = self.output_stack.len();
        for i in 0..n
            invariant
                n == self.output_stack@.len(),
                (forall|k: int|
                    0 <= k < i ==> !(outputs_view(self.output_stack@)[k].kind is File)),
        {
            let is_file = match &self.output_stack[i].0 {
                ExportContext::File => true,
                _ => false,
            };
            if is_file {
                proof {
                    assert(outputs_view(self.output_stack@)[i as int].kind is File);
                }
                return true;
            }
            proof {
                assert(!(outputs_view(self.output_stack@)[i as int].kind is File));
            }
        }
        false
    }

    /// Appends to the innermost open buffer.
    fn top_append(&mut self, s: &str)
        ensures
            final(self)@ == app_top(old(self)@, s@),
    {
        let popped_pair = self.output_stack.pop();
        match popped_pair {
            Some(pair) => {
                let (k, mut text) = pair;
                append_str(&mut text, s);
                self.output_stack.push((k, text));
                proof {
                    let os = old(self)@;
                    let last = os.stack.len() - 1;
                    assert(outputs_view(self.output_stack@) =~= os.stack.update(
                        last,
                        OutputModel { kind: os.stack[last].kind, text: os.stack[last].text + s@ },
                    ));
                    assert(self@ =~~= app_top(os, s@));
                }
            },
            None => {
                proof {
                    assert(self@ =~~= app_top(old(self)@, s@));
                }
            },
        }
    }

    /// Ensures the innermost open buffer ends in a line break.
    fn top_pad(&mut self)
        ensures
            final(self)@ == pad_top(old(self)@),
    {
        let popped_pair = self.output_stack.pop();
        match popped_pair {
            Some(pair) => {
                let (k, mut text) = pair;
                ensure_newline(&mut text);
                self.output_stack.push((k, text));
                proof {
                    let os = old(self)@;
                    let last = os.stack.len() - 1;
                    assert(outputs_view(self.output_stack@) =~= os.stack.update(
                        last,
                        OutputModel {
                            kind: os.stack[last].kind,
                            text: ensure_nl_spec(os.stack[last].text),
                        },
                    ));
                    assert(self@ =~~= pad_top(os));
                }
            },
            None => {
                proof {
                    assert(self@ =~~= pad_top(old(self)@));
                }
            },
        }
    }

    /// Block-level append: line break ensured, then the text.
    fn top_append_block(&mut self, s: &str)
        ensures
            final(self)@ == app_top_block(old(self)@, s@),
    {
        self.top_pad();
        self.top_append(s);
        proof {
            assert(self@ =~~= app_top_block(old(self)@, s@));
        }
    }

    /// Handles a keyword line: filetags may open the file context;
    /// any other keyword joins the file front matter.
    fn do_keyword(&mut self, raw: &str)
        ensures
            final(self)@ == step_keyword(old(self)@, raw@),
    {
        if has_prefix(raw, "#+filetags") {
            match split_once_char(raw, ':') {
                Some(pair) => {
                    let tags = trim_ws(pair.1.as_str());
                    if contains_segment(tags.as_str(), ':', "export") {
                        if !self.has_file_ctx() {
                            self.output_stack.insert(
                                0,
                                (ExportContext::File, String::new()),
                            );
                            proof {
                                assert(outputs_view(self.output_stack@) =~= seq![
                                    OutputModel { kind: KindModel::File, text: Seq::empty() },
                                ] + outputs_view(old(self).output_stack@));
                                assert(self@ =~~= step_keyword(old(self)@, raw@));
                            }
                        } else {
                            proof {
                                assert(self@ =~~= step_keyword(old(self)@, raw@));
                            }
                        }
                    } else {
                        proof {
                            assert(self@ =~~= step_keyword(old(self)@, raw@));
                        }
                    }
                },
                None => {
                    proof {
                        assert(self@ =~~= step_keyword(old(self)@, raw@));
                    }
                },
            }
        } else {
            let stripped = strip_all(raw, "#+");
            match split_once_char(stripped.as_str(), ':') {
                Some(pair) => {
                    let v = trim_ws(pair.1.as_str());
                    let ghost kv = (pair.0@, v@);
                    self.file_front_matter.push((pair.0, v));
                    proof {
                        assert(ff_view(self.file_front_matter@) =~= ff_view(
                            old(self).file_front_matter@,
                        ).push(kv));
                        assert(self@ =~~= step_keyword(old(self)@, raw@));
                    }
                },
                None => {
                    proof {
                        assert(self@ =~~= step_keyword(old(self)@, raw@));
                    }
                },
            }
        }
    }

    /// Handles a property drawer: file-level front matter before the
    /// first headline, passed over afterwards.
    fn do_drawer(&mut self, props: &Vec<String>)
        ensures
            final(self)@ == step_drawer(old(self)@, props@),
    {
        if self.entered_headline {
            proof {
                assert(self@ =~~= step_drawer(old(self)@, props@));
            }
            return ;
        }
        let n = props.len();
        proof {
            assert(props@.skip(0) =~= props@);
        }
        for i in 0..n
            invariant
                n == props@.len(),
                !self.entered_headline,
                self@ == (SplitModel { file_front: self@.file_front, ..old(self)@ }),
                ff_view(self.file_front_matter@) + drawer_entries(props@.skip(i as int))
                    == ff_view(old(self).file_front_matter@) + drawer_entries(props@),
        {
            proof {
                assert(props@.skip(i as int)[0] == props@[i as int]);
                assert(props@.skip(i as int).drop_first() =~= props@.skip(i + 1));
            }
            let ghost prevff = ff_view(self.file_front_matter@);
            match prop_kv_exec(&props[i]) {
                Some(kv) => {
                    let ghost kvv = (kv.0@, kv.1@);
                    self.file_front_matter.push(kv);
                    proof {
                        assert(ff_view(self.file_front_matter@) =~= prevff.push(kvv));
                        assert(prevff + drawer_entries(props@.skip(i as int)) =~= ff_view(
                            self.file_front_matter@,
                        ) + drawer_entries(props@.skip(i + 1)));
                    }
                },
                None => {
                    proof {
                        assert(prevff + drawer_entries(props@.skip(i as int)) =~= ff_view(
                            self.file_front_matter@,
                        ) + drawer_entries(props@.skip(i + 1)));
                    }
                },
            }
        }
        proof {
            assert(props@.skip(n as int) =~= Seq::<String>::empty());
            assert(drawer_entries(Seq::<String>::empty()) =~= Seq::<(Seq<char>, Seq<char>)>::empty());
            assert(ff_view(self.file_front_matter@) =~= ff_view(old(self).file_front_matter@)
                + drawer_entries(props@));
            assert(self@ =~~= step_drawer(old(self)@, props@));
        }
    }

    /// Closes every section context at `lvl` or deeper, finalising
    /// each.
    fn pop_to_level(&mut self, lvl: usize)
        ensures
            final(self)@ == popped(old(self)@, lvl),
    {
        loop
            invariant
                popped(self@, lvl) == popped(old(self)@, lvl),
            decreases self.output_stack@.len(),
        {
            let ghost m = self@;
            let ghost vpre = self.output_stack@;
            let popped_pair = self.output_stack.pop();
            match popped_pair {
                Some(pair) => {
                    let keep = match &pair.0 {
                        ExportContext::Headline(a) => a.level < lvl,
                        ExportContext::File => true,
                    };
                    if keep {
                        self.output_stack.push(pair);
                        proof {
                            assert(self.output_stack@ =~= vpre);
                            assert(outputs_view(self.output_stack@) =~= m.stack);
                            assert(split_point(m.stack, lvl) == m.stack.len() as int);
                            assert(m.stack.skip(m.stack.len() as int) =~= Seq::<
                                OutputModel,
                            >::empty());
                            assert(m.stack.take(m.stack.len() as int) =~= m.stack);
                            assert(m.finished + rev_spec(
                                m.stack.skip(m.stack.len() as int),
                            ) =~= m.finished);
                            assert(popped(m, lvl) =~~= m);
                            assert(self@ =~~= m);
                        }
                        return ;
                    } else {
                        let ghost top = m.stack.last();
                        self.finished_outputs.push(pair);
                        proof {
                            lemma_split_point_range(m.stack.drop_last(), lvl);
                            let sp = split_point(m.stack, lvl);
                            assert(sp == split_point(m.stack.drop_last(), lvl));
                            let m2 = self@;
                            assert(m2.stack =~= m.stack.drop_last());
                            assert(m2.finished =~= m.finished.push(top));
                            assert(m.stack.skip(sp).len() > 0);
                            assert(m.stack.skip(sp).last() == top);
                            assert(m.stack.skip(sp).drop_last() =~= m.stack.drop_last().skip(
                                sp,
                            ));
                            assert(rev_spec(m.stack.skip(sp)) =~= seq![top] + rev_spec(
                                m.stack.drop_last().skip(sp),
                            ));
                            assert(m.finished + rev_spec(m.stack.skip(sp)) =~= m.finished.push(
                                top,
                            ) + rev_spec(m2.stack.skip(sp)));
                            assert(m.stack.take(sp) =~= m2.stack.take(sp));
                            assert(popped(m2, lvl) =~~= popped(m, lvl));
                        }
                    }
                },
                None => {
                    proof {
                        assert(m.stack.len() == 0);
                        assert(split_point(m.stack, lvl) == 0);
                        assert(m.stack.skip(0) =~= Seq::<OutputModel>::empty());
                        assert(m.stack.take(0) =~= m.stack);
                        assert(m.finished + rev_spec(Seq::<OutputModel>::empty())
                            =~= m.finished);
                        assert(popped(m, lvl) =~~= m);
                        assert(self@ =~~= m);
                    }
                    return ;
                },
            }
        }
    }

    /// Handles entering a headline: closes deeper contexts, then
    /// either opens a new export context or renders a heading.
    fn do_headline(&mut self, h: &HeadlineInfo)
        ensures
            final(self)@ == step_headline(old(self)@, *h),
    {
        self.pop_to_level(h.level);
        self.entered_headline = true;
        let ghost m1 = self@;
        proof {
            assert(m1 =~~= (SplitModel { entered_headline: true, ..popped(old(self)@, h.level) }));
        }
        if has_export(&h.tags) {
            if self.output_stack.len() > 0 {
                let fname = lookup_section(
                    &self.headline_map,
                    self.this_file.as_str(),
                    h.start,
                    h.end,
                );
                match fname {
                    Some(f) => {
                        let mut s = "![[".to_owned();
                        append_str(&mut s, f.as_str());
                        append_str(&mut s, "]]\n\n");
                        proof {
                            assert(s@ =~= "![["@ + f@ + "]]\n\n"@);
                        }
                        self.top_append(s.as_str());
                    },
                    None => {
                        let mut s = "exported headline ".to_owned();
                        append_str(&mut s, h.title.as_str());
                        append_str(&mut s, " with no id");
                        proof {
                            assert(s@ =~= "exported headline "@ + h.title@ + " with no id"@);
                        }
                        self.top_append(s.as_str());
                        self.warnings.push(Warning::MissingSectionId { title: h.title.clone() });
                        proof {
                            assert(warns_view(self.warnings@) =~= m1.warnings.push(
                                WarnModel::MissingSectionId { title: h.title@ },
                            ));
                        }
                    },
                }
            }
            let ghost m2 = self@;
            let pre = self.make_preamble(h);
            let anchor = SectionAnchor {
                level: h.level,
                title: h.title.clone(),
                start: h.start,
                end: h.end,
            };
            self.output_stack.push((ExportContext::Headline(anchor), pre));
            proof {
                assert(outputs_view(self.output_stack@) =~= m2.stack.push(
                    OutputModel {
                        kind: KindModel::Section {
                            level: h.level,
                            title: h.title@,
                            start: h.start,
                            end: h.end,
                        },
                        text: headline_preamble(*h),
                    },
                ));
                assert(self@ =~~= step_headline(old(self)@, *h));
            }
        } else {
            if self.output_stack.len() > 0 {
                let last = self.output_stack.len() - 1;
                let off: usize = match &self.output_stack[last].0 {
                    ExportContext::File => 0,
                    ExportContext::Headline(a) => a.level,
                };
                let d: usize = if h.level > off {
                    h.level - off
                } else {
                    0
                };
                let lvl: usize = if d > 6 {
                    6
                } else {
                    d
                };
                let mut s = String::new();
                append_repeat(&mut s, '#', lvl);
                append_str(&mut s, " ");
                append_str(&mut s, h.title.as_str());
                proof {
                    assert(off as int == anchor_offset(m1.stack.last().kind));
                    assert(lvl as int == clamp_level(h.level as int, off as int));
                    assert(Seq::new(lvl as nat, |i: int| '#') =~= hashes(lvl as int));
                    assert(s@ =~= hashes(clamp_level(h.level as int, off as int)) + " "@
                        + h.title@);
                }
                self.top_append_block(s.as_str());
                proof {
                    assert(self@ =~~= step_headline(old(self)@, *h));
                }
            } else {
                proof {
                    assert(self@ =~~= step_headline(old(self)@, *h));
                }
            }
        }
    }

    /// Builds a section context's front-matter seed.
    fn make_preamble(&mut self, h: &HeadlineInfo) -> (r: String)
        ensures
            *final(self) == *old(self),
            r@ == headline_preamble(*h),
    {
        let mut pre = "---\ntitle: ".to_owned();
        append_str(&mut pre, h.title.as_str());
        append_str(&mut pre, "\n");
        let ghost base = "---\ntitle: "@ + h.title@ + "\n"@;
        proof {
            assert(pre@ =~= base);
            assert(h.props@.skip(0) =~= h.props@);
        }
        let np = h.props.len();
        for i in 0..np
            invariant
                np == h.props@.len(),
                pre@ + props_front(h.props@.skip(i as int)) == base + props_front(h.props@),
        {
            proof {
                assert(h.props@.skip(i as int)[0] == h.props@[i as int]);
                assert(h.props@.skip(i as int).drop_first() =~= h.props@.skip(i + 1));
            }
            let ghost prev = pre@;
            match prop_kv_exec(&h.props[i]) {
                Some(kv) => {
                    append_str(&mut pre, kv.0.as_str());
                    append_str(&mut pre, ": ");
                    append_str(&mut pre, kv.1.as_str());
                    append_str(&mut pre, "\n");
                    proof {
                        assert(pre@ =~= prev + (kv.0@ + ": "@ + kv.1@ + "\n"@));
                        assert(pre@ + props_front(h.props@.skip(i + 1)) =~= prev + props_front(
                            h.props@.skip(i as int),
                        ));
                    }
                },
                None => {
                    proof {
                        assert(pre@ + props_front(h.props@.skip(i + 1)) =~= prev + props_front(
                            h.props@.skip(i as int),
                        ));
                    }
                },
            }
        }
        proof {
            assert(h.props@.skip(np as int) =~= Seq::<String>::empty());
            assert(props_front(Seq::<String>::empty()) =~= Seq::<char>::empty());
            assert(pre@ =~= base + props_front(h.props@));
        }
        append_str(&mut pre, "---\n\n");
        proof {
            assert(pre@ =~= headline_preamble(*h));
        }
        pre
    }

    /// Handles entering a link inside an open context.
    fn do_link(&mut self, l: &LinkInfo) -> (skip: bool)
        requires
            old(self)@.stack.len() > 0,
        ensures
            final(self)@ == step_link(old(self)@, *l).0,
            skip == step_link(old(self)@, *l).1,
    {
        if has_prefix(l.path.as_str(), "id:") {
            let idr = strip_all(l.path.as_str(), "id:");
            match parse_uuid(idr.as_str()) {
                Some(u) => {
                    let found = lookup_id(&self.node_map, u);
                    match found {
                        Some(f) => {
                            if l.has_description {
                                let mut s = "[[".to_owned();
                                append_str(&mut s, f.as_str());
                                append_str(&mut s, "][");
                                append_str(&mut s, l.description.as_str());
                                append_str(&mut s, "]]");
                                proof {
                                    assert(s@ =~= "[["@ + f@ + "]["@ + l.description@ + "]]"@);
                                }
                                self.top_append(s.as_str());
                            } else {
                                let mut s = "[[".to_owned();
                                append_str(&mut s, f.as_str());
                                append_str(&mut s, "]]");
                                proof {
                                    assert(s@ =~= "[["@ + f@ + "]]"@);
                                }
                                self.top_append(s.as_str());
                            }
                            proof {
                                assert(self@ =~~= step_link(old(self)@, *l).0);
                            }
                            true
                        },
                        None => {
                            let us = uuid_to_string(u);
                            let last = self.output_stack.len() - 1;
                            let name = ctx_name(&self.output_stack[last].0);
                            let mut s = "link to non-existent uuid ".to_owned();
                            append_str(&mut s, us.as_str());
                            proof {
                                assert(s@ =~= "link to non-existent uuid "@ + uuid_str_of(u));
                            }
                            let ghost m1 = app_top(old(self)@, s@);
                            self.top_append(s.as_str());
                            self.warnings.push(
                                Warning::UnresolvedLink {
                                    id_raw: us,
                                    description: l.description.clone(),
                                    context: name,
                                },
                            );
                            proof {
                                assert(warns_view(self.warnings@) =~= m1.warnings.push(
                                    WarnModel::UnresolvedLink {
                                        id_raw: uuid_str_of(u),
                                        description: l.description@,
                                        context: ctx_name_spec(old(self)@.stack.last().kind),
                                    },
                                ));
                                assert(self@ =~~= step_link(old(self)@, *l).0);
                            }
                            true
                        },
                    }
                },
                None => {
                    let last = self.output_stack.len() - 1;
                    let name = ctx_name(&self.output_stack[last].0);
                    let mut s = "link to non-existent uuid ".to_owned();
                    append_str(&mut s, idr.as_str());
                    proof {
                        assert(s@ =~= "link to non-existent uuid "@ + strip_all_spec(
                            l.path@,
                            "id:"@,
                        ));
                    }
                    let ghost m1 = app_top(old(self)@, s@);
                    self.top_append(s.as_str());
                    self.warnings.push(
                        Warning::UnresolvedLink {
                            id_raw: idr,
                            description: l.description.clone(),
                            context: name,
                        },
                    );
                    proof {
                        assert(warns_view(self.warnings@) =~= m1.warnings.push(
                            WarnModel::UnresolvedLink {
                                id_raw: strip_all_spec(l.path@, "id:"@),
                                description: l.description@,
                                context: ctx_name_spec(old(self)@.stack.last().kind),
                            },
                        ));
                        assert(self@ =~~= step_link(old(self)@, *l).0);
                    }
                    true
                },
            }
        } else {
            let p = strip_all(l.path.as_str(), "file:");
            if l.is_image {
                let mut s = "![](".to_owned();
                append_str(&mut s, p.as_str());
                append_str(&mut s, ")");
                proof {
                    assert(s@ =~= "![]("@ + strip_all_spec(l.path@, "file:"@) + ")"@);
                }
                self.top_append(s.as_str());
                proof {
                    assert(self@ =~~= step_link(old(self)@, *l).0);
                }
                true
            } else if !l.has_description {
                let mut s = "[".to_owned();
                append_str(&mut s, p.as_str());
                append_str(&mut s, "](");
                append_str(&mut s, p.as_str());
                append_str(&mut s, ")");
                proof {
                    let pv = strip_all_spec(l.path@, "file:"@);
                    assert(s@ =~= "["@ + pv + "]("@ + pv + ")"@);
                }
                self.top_append(s.as_str());
                proof {
                    assert(self@ =~~= step_link(old(self)@, *l).0);
                }
                true
            } else {
                self.top_append("[");
                proof {
                    assert(self@ =~~= step_link(old(self)@, *l).0);
                }
                false
            }
        }
    }

    /// Appends text with block-quote continuation markers.
    fn top_append_quoted(&mut self, s: &str)
        ensures
            final(self)@ == app_top(old(self)@, quote_text_spec(s@)),
    {
        let popped_pair = self.output_stack.pop();
        match popped_pair {
            Some(pair) => {
                let (k, mut text) = pair;
                append_quoted(&mut text, s);
                self.output_stack.push((k, text));
                proof {
                    let os = old(self)@;
                    let last = os.stack.len() - 1;
                    assert(outputs_view(self.output_stack@) =~= os.stack.update(
                        last,
                        OutputModel {
                            kind: os.stack[last].kind,
                            text: os.stack[last].text + quote_text_spec(s@),
                        },
                    ));
                    assert(self@ =~~= app_top(os, quote_text_spec(s@)));
                }
            },
            None => {
                proof {
                    assert(self@ =~~= app_top(old(self)@, quote_text_spec(s@)));
                }
            },
        }
    }

    /// One traversal event. Returns whether the construct's children
    /// are to be passed over.
    pub fn event(&mut self, e: &OrgEvent) -> (skip: bool)
        ensures
            final(self)@ == step(old(self)@, *e).0,
            skip == step(old(self)@, *e).1,
    {
        match e {
            OrgEvent::Keyword { raw } => {
                self.do_keyword(raw.as_str());
                true
            },
            OrgEvent::PropertyDrawer { props } => {
                self.do_drawer(props);
                true
            },
            OrgEvent::EnterHeadline(h) => {
                self.do_headline(h);
                false
            },
            _ => {
                if self.output_stack.len() == 0 {
                    return false;
                }
                match e {
                    OrgEvent::LeaveParagraph => {
                        self.top_append("\n");
                        false
                    },
                    OrgEvent::EnterSection => {
                        self.top_pad();
                        false
                    },
                    OrgEvent::EnterItalic | OrgEvent::LeaveItalic => {
                        self.top_append("*");
                        false
                    },
                    OrgEvent::EnterBold | OrgEvent::LeaveBold => {
                        self.top_append("**");
                        false
                    },
                    OrgEvent::EnterStrike | OrgEvent::LeaveStrike => {
                        self.top_append("~~");
                        false
                    },
                    OrgEvent::EnterVerbatim
                    | OrgEvent::LeaveVerbatim
                    | OrgEvent::EnterCode
                    | OrgEvent::LeaveCode => {
                        self.top_append("`");
                        false
                    },
                    OrgEvent::EnterSourceBlock { language } => {
                        match language {
                            Some(l) => {
                                let mut s = "```".to_owned();
                                append_str(&mut s, l.as_str());
                                proof {
                                    assert(s@ =~= "```"@ + l@);
                                }
                                self.top_append_block(s.as_str());
                            },
                            None => {
                                self.top_append_block("```");
                                proof {
                                    assert("```"@ =~= "```"@ + Seq::<char>::empty());
                                }
                            },
                        }
                        false
                    },
                    OrgEvent::LeaveSourceBlock => {
                        self.top_append("```\n");
                        false
                    },
                    OrgEvent::EnterQuoteBlock => {
                        self.top_append_block("> ");
                        self.inside_blockquote = true;
                        proof {
                            assert(self@ =~~= step(old(self)@, *e).0);
                        }
                        false
                    },
                    OrgEvent::LeaveQuoteBlock => {
                        self.inside_blockquote = false;
                        proof {
                            assert(self@ =~~= step(old(self)@, *e).0);
                        }
                        false
                    },
                    OrgEvent::EnterCommentBlock | OrgEvent::EnterComment => {
                        self.top_append("<!--");
                        false
                    },
                    OrgEvent::LeaveCommentBlock | OrgEvent::LeaveComment => {
                        self.top_append("-->");
                        false
                    },
                    OrgEvent::EnterSubscript => {
                        self.top_append("<sub>");
                        false
                    },
                    OrgEvent::LeaveSubscript => {
                        self.top_append("</sub>");
                        false
                    },
                    OrgEvent::EnterSuperscript => {
                        self.top_append("<sup>");
                        false
                    },
                    OrgEvent::LeaveSuperscript => {
                        self.top_append("</sup>");
                        false
                    },
                    OrgEvent::EnterListItem { indent, bullet } => {
                        let mut s = String::new();
                        append_repeat(&mut s, ' ', *indent);
                        append_str(&mut s, bullet.as_str());
                        proof {
                            assert(s@ =~= Seq::new(*indent as nat, |i: int| ' ') + bullet@);
                        }
                        self.top_append_block(s.as_str());
                        false
                    },
                    OrgEvent::EnterTable { first_line } => {
                        let last = self.output_stack.len() - 1;
                        let name = ctx_name(&self.output_stack[last].0);
                        let ghost m1 = app_top_block(old(self)@, "skipped table\n"@);
                        self.top_append_block("skipped table\n");
                        self.warnings.push(
                            Warning::SkippedTable { first_line: first_line.clone(), context: name },
                        );
                        proof {
                            assert(warns_view(self.warnings@) =~= m1.warnings.push(
                                WarnModel::SkippedTable {
                                    first_line: first_line@,
                                    context: ctx_name_spec(old(self)@.stack.last().kind),
                                },
                            ));
                            assert(self@ =~~= step(old(self)@, *e).0);
                        }
                        true
                    },
                    OrgEvent::EnterLink(l) => self.do_link(l),
                    OrgEvent::LeaveLink { path } => {
                        let p = strip_all(path.as_str(), "file:");
                        let mut s = "](".to_owned();
                        append_str(&mut s, p.as_str());
                        append_str(&mut s, ")");
                        proof {
                            assert(s@ =~= "]("@ + strip_all_spec(path@, "file:"@) + ")"@);
                        }
                        self.top_append(s.as_str());
                        false
                    },
                    OrgEvent::Text { text } => {
                        if self.inside_blockquote {
                            self.top_append_quoted(text.as_str());
                        } else {
                            self.top_append(text.as_str());
                        }
                        false
                    },
                    OrgEvent::Rule => {
                        self.top_append("\n-----\n");
                        false
                    },
                    OrgEvent::LatexFragment { raw } => {
                        self.top_append(raw.as_str());
                        false
                    },
                    OrgEvent::LatexEnvironment { raw } => {
                        self.top_append(raw.as_str());
                        false
                    },
                    OrgEvent::Entity { utf8 } => {
                        self.top_append(utf8.as_str());
                        false
                    },
                    _ => {
                        false
                    },
                }
            },
        }
    }

    /// Feeds a whole document's events through the splitter,
    /// honouring skips.
    pub fn run(&mut self, events: &Vec<OrgEvent>)
        ensures
            final(self)@ == run_events(old(self)@, events@),
    {
        let n = events.len();
        let mut skipping: usize = 0;
        for i in 0..n
            invariant
                n == events@.len(),
                skipping <= i,
                run_from(old(self)@, events@, 0, 0) == run_from(
                    self@,
                    events@,
                    i as int,
                    skipping as nat,
                ),
        {
            let e = &events[i];
            if skipping > 0 {
                if crate::events::is_enter_event(e) {
                    skipping = skipping + 1;
                } else if crate::events::is_leave_event(e) {
                    skipping = skipping - 1;
                }
            } else {
                let skip = self.event(e);
                if skip && crate::events::is_enter_event(e) {
                    skipping = 1;
                }
            }
        }
    }

    /// Finalises every still-open context, innermost first, and
    /// prepends the file-level front matter to the file context's
    /// output. Returns the finished outputs and the diagnostics.
    pub fn finish(self) -> (r: (Vec<(ExportContext, String)>, Vec<Warning>))
        ensures
            outputs_view(r.0@) == finish_spec(self@),
            warns_view(r.1@) == self@.warnings,
    {
        let ghost m0 = self@;
        let MarkdownExport {
            this_file: _this_file,
            node_map: _node_map,
            headline_map: _headline_map,
            file_front_matter,
            entered_headline: _entered_headline,
            inside_blockquote: _inside_blockquote,
            mut output_stack,
            mut finished_outputs,
            warnings,
        } = self;
        loop
            invariant
                outputs_view(finished_outputs@) + rev_spec(outputs_view(output_stack@))
                    == m0.finished + rev_spec(m0.stack),
            ensures
                output_stack@.len() == 0,
                outputs_view(finished_outputs@) + rev_spec(outputs_view(output_stack@))
                    == m0.finished + rev_spec(m0.stack),
            decreases output_stack@.len(),
        {
            let ghost fin_pre = outputs_view(finished_outputs@);
            let ghost stk_pre = outputs_view(output_stack@);
            let popped_pair = output_stack.pop();
            match popped_pair {
                Some(pair) => {
                    let ghost top = stk_pre.last();
                    finished_outputs.push(pair);
                    proof {
                        assert(outputs_view(finished_outputs@) =~= fin_pre.push(top));
                        assert(outputs_view(output_stack@) =~= stk_pre.drop_last());
                        assert(rev_spec(stk_pre) =~= seq![top] + rev_spec(stk_pre.drop_last()));
                        assert(fin_pre + rev_spec(stk_pre) =~= fin_pre.push(top) + rev_spec(
                            stk_pre.drop_last(),
                        ));
                    }
                },
                None => {
                    proof {
                        assert(outputs_view(output_stack@) =~= Seq::<OutputModel>::empty());
                        assert(rev_spec(Seq::<OutputModel>::empty()) =~= Seq::<
                            OutputModel,
                        >::empty());
                        assert(outputs_view(finished_outputs@) =~= m0.finished + rev_spec(
                            m0.stack,
                        ));
                    }
                    break ;
                },
            }
        }
        let ghost all = m0.finished + rev_spec(m0.stack);
        let ghost vpre = finished_outputs@;
        proof {
            assert(outputs_view(output_stack@) =~= Seq::<OutputModel>::empty());
            assert(rev_spec(Seq::<OutputModel>::empty()) =~= Seq::<OutputModel>::empty());
            assert(outputs_view(vpre) =~= outputs_view(vpre) + rev_spec(
                outputs_view(output_stack@),
            ));
            assert(outputs_view(vpre) == all);
        }
        let last_pair = finished_outputs.pop();
        match last_pair {
            Some(pair) => {
                proof {
                    assert(all[all.len() - 1] == OutputModel {
                        kind: kind_view(vpre.last().0),
                        text: vpre.last().1@,
                    });
                    assert(kind_view(pair.0) == all.last().kind);
                    assert(pair.1@ == all.last().text);
                }
                let is_file = match &pair.0 {
                    ExportContext::File => true,
                    _ => false,
                };
                if is_file {
                    let mut pre = "---\n".to_owned();
                    let n = file_front_matter.len();
                    let ghost ffv = ff_view(file_front_matter@);
                    proof {
                        assert(ffv.skip(0) =~= ffv);
                    }
                    for i in 0..n
                        invariant
                            n == file_front_matter@.len(),
                            ffv == ff_view(file_front_matter@),
                            pre@ + ff_lines(ffv.skip(i as int)) == "---\n"@ + ff_lines(ffv),
                    {
                        proof {
                            assert(ffv.skip(i as int)[0] == ffv[i as int]);
                            assert(ffv.skip(i as int).drop_first() =~= ffv.skip(i + 1));
                        }
                        let ghost prev = pre@;
                        let entry = &file_front_matter[i];
                        append_str(&mut pre, entry.0.as_str());
                        append_str(&mut pre, ": ");
                        append_str(&mut pre, entry.1.as_str());
                        append_str(&mut pre, "\n");
                        proof {
                            assert(pre@ =~= prev + (ffv[i as int].0 + ": "@ + ffv[i as int].1
                                + "\n"@));
                            assert(pre@ + ff_lines(ffv.skip(i + 1)) =~= prev + ff_lines(
                                ffv.skip(i as int),
                            ));
                        }
                    }
                    proof {
                        assert(ffv.skip(n as int) =~= Seq::<(Seq<char>, Seq<char>)>::empty());
                        assert(ff_lines(Seq::<(Seq<char>, Seq<char>)>::empty()) =~= Seq::<
                            char,
                        >::empty());
                        assert(pre@ =~= "---\n"@ + ff_lines(ffv));
                    }
                    append_str(&mut pre, "---\n\n");
                    append_str(&mut pre, pair.1.as_str());
                    proof {
                        assert(pre@ =~= file_preamble_spec(m0.file_front) + all.last().text);
                    }
                    finished_outputs.push((ExportContext::File, pre));
                    proof {
                        assert(outputs_view(finished_outputs@) =~= all.update(
                            all.len() - 1,
                            OutputModel {
                                kind: KindModel::File,
                                text: file_preamble_spec(m0.file_front) + all.last().text,
                            },
                        ));
                        assert(outputs_view(finished_outputs@) =~= finish_spec(m0));
                    }
                } else {
                    finished_outputs.push(pair);
                    proof {
                        assert(finished_outputs@ =~= vpre);
                        assert(outputs_view(finished_outputs@) =~= all);
                        assert(!(all.last().kind is File));
                        assert(outputs_view(finished_outputs@) =~= finish_spec(m0));
                    }
                }
            },
            None => {
                proof {
                    assert(all.len() == 0);
                    assert(outputs_view(finished_outputs@) =~= finish_spec(m0));
                }
            },
        }
        (finished_outputs, warnings)
    }
}

/// Exports one parsed document against the corpus tables: splits it
/// at every export boundary and renders its content, returning the
/// finished outputs and the diagnostics. The result is a function of
/// the document's events and the tables alone.
pub fn export_document(
    doc_path: String,
    events: &Vec<OrgEvent>,
    ids: Vec<(u128, String)>,
    sections: Vec<SectionNameRow>,
) -> (r: (Vec<(ExportContext, String)>, Vec<Warning>))
    ensures
        outputs_view(r.0@) == finish_spec(
            run_events(init_model(doc_path@, ids@, sections@), events@),
        ),
        warns_view(r.1@) == run_events(init_model(doc_path@, ids@, sections@), events@).warnings,
{
    let ghost m0 = init_model(doc_path@, ids@, sections@);
    let mut ex = MarkdownExport::new(doc_path, ids, sections);
    proof {
        assert(ex@ =~~= m0);
    }
    ex.run(events);
    ex.finish()
}

} // verus!
