use roam_export::events::{HeadlineInfo, LinkInfo, OrgEvent};
use roam_export::idfmt::uuid_to_string;
use roam_export::index::{check_unique, index_document, IndexError, NodeEntry, NodeRec};
use roam_export::plan::{file_slugs, id_filenames, section_filenames};
use roam_export::split::{export_document, output_name, ExportContext, Warning};

const F1: &str = "aaaaaaaa-aaaa-aaaa-aaaa-aaaaaaaaaaaa";
const H1: &str = "bbbbbbbb-bbbb-bbbb-bbbb-bbbbbbbbbbbb";
const ABSENT: &str = "cccccccc-cccc-cccc-cccc-cccccccccccc";

fn kw(raw: &str) -> OrgEvent {
    OrgEvent::Keyword { raw: raw.to_string() }
}

fn drawer(props: &[&str]) -> OrgEvent {
    OrgEvent::PropertyDrawer { props: props.iter().map(|p| p.to_string()).collect() }
}

fn headline(level: usize, title: &str, tags: &[&str], props: &[&str], start: u32, end: u32) -> OrgEvent {
    OrgEvent::EnterHeadline(HeadlineInfo {
        level,
        title: title.to_string(),
        tags: tags.iter().map(|t| t.to_string()).collect(),
        props: props.iter().map(|p| p.to_string()).collect(),
        start,
        end,
    })
}

fn text(t: &str) -> OrgEvent {
    OrgEvent::Text { text: t.to_string() }
}

fn id_link(id: &str, description: Option<&str>) -> OrgEvent {
    OrgEvent::EnterLink(LinkInfo {
        path: format!("id:{id}"),
        has_description: description.is_some(),
        description: description.unwrap_or("").to_string(),
        is_image: false,
    })
}

struct Tables {
    ids: Vec<(u128, String)>,
    sections: Vec<roam_export::plan::SectionNameRow>,
    files: Vec<(String, String)>,
}

fn plan_corpus(docs: &[(&str, &Vec<OrgEvent>)]) -> (Vec<NodeEntry>, Tables) {
    let mut entries: Vec<NodeEntry> = Vec::new();
    for (path, events) in docs {
        let mut part = index_document(path, events).expect("indexing failed");
        entries.append(&mut part);
    }
    check_unique(&entries).expect("duplicate identifier");
    let tables = Tables {
        ids: id_filenames(&entries),
        sections: section_filenames(&entries),
        files: file_slugs(&entries),
    };
    (entries, tables)
}

fn run_one(
    path: &str,
    events: &Vec<OrgEvent>,
    tables: &Tables,
) -> (Vec<(ExportContext, String)>, Vec<Warning>) {
    export_document(
        path.to_string(),
        events,
        tables.ids.clone(),
        tables.sections.clone(),
    )
}

fn notes_doc() -> Vec<OrgEvent> {
    vec![
        drawer(&[&format!(":ID: {F1}")[..]]),
        kw("#+title: Notes"),
        kw("#+filetags: :export:"),
        headline(1, "Sub", &["export"], &[&format!(":ID: {H1}")[..]], 10, 20),
        OrgEvent::LeaveHeadline,
    ]
}

#[test]
fn end_to_end_two_files() {
    let events = notes_doc();
    let (_entries, tables) = plan_corpus(&[("notes.org", &events)]);
    let (outputs, warnings) = run_one("notes.org", &events, &tables);

    assert_eq!(outputs.len(), 2);
    assert!(warnings.is_empty());

    // Innermost context first: the section, then the file.
    match &outputs[0].0 {
        ExportContext::Headline(a) => assert_eq!(a.title, "Sub"),
        _ => panic!("expected a section output first"),
    }
    assert_eq!(outputs[0].1, format!("---\ntitle: Sub\nID: {H1}\n---\n\n"));
    assert!(matches!(outputs[1].0, ExportContext::File));
    assert_eq!(
        outputs[1].1,
        format!("---\nID: {F1}\ntitle: Notes\n---\n\n![[sub.md]]\n\n")
    );

    let sub_name = output_name(&outputs[0].0, "notes.org", &tables.files, &tables.sections);
    assert_eq!(sub_name.as_deref(), Some("sub.md"));
    let file_name = output_name(&outputs[1].0, "notes.org", &tables.files, &tables.sections);
    assert_eq!(file_name.as_deref(), Some("notes.md"));
}

#[test]
fn rerun_is_byte_identical() {
    let events = notes_doc();
    let (_entries, tables) = plan_corpus(&[("notes.org", &events)]);
    let (out1, warn1) = run_one("notes.org", &events, &tables);
    let (out2, warn2) = run_one("notes.org", &events, &tables);
    assert_eq!(out1.len(), out2.len());
    for (a, b) in out1.iter().zip(out2.iter()) {
        assert_eq!(a.1, b.1);
    }
    assert_eq!(warn1.len(), warn2.len());
}

#[test]
fn slug_depends_only_on_title() {
    let d1 = vec![headline(1, "Shared Title", &["export"], &[&format!(":ID: {F1}")[..]], 0, 5)];
    let d2 = vec![headline(3, "Shared Title", &["export"], &[&format!(":ID: {H1}")[..]], 7, 90)];
    let e1 = index_document("one.org", &d1).unwrap();
    let e2 = index_document("two.org", &d2).unwrap();
    let n1 = id_filenames(&e1);
    let n2 = id_filenames(&e2);
    assert_eq!(n1[0].1, n2[0].1);
    assert_eq!(n1[0].1, "shared-title");
}

#[test]
fn slugify_transforms_title() {
    let d = vec![headline(1, "My Test String!!!1!1", &["export"], &[&format!(":ID: {H1}")[..]], 0, 5)];
    let entries = index_document("a.org", &d).unwrap();
    let names = section_filenames(&entries);
    assert_eq!(names[0].name, "my-test-string-1-1.md");
}

#[test]
fn link_round_trip_with_description() {
    let target = vec![
        kw("#+filetags: :export:"),
        headline(1, "Target", &["export"], &[&format!(":ID: {H1}")[..]], 5, 30),
    ];
    let source = vec![
        drawer(&[&format!(":ID: {F1}")[..]]),
        kw("#+title: Source"),
        kw("#+filetags: :export:"),
        OrgEvent::EnterSection,
        OrgEvent::EnterParagraph,
        id_link(H1, Some("see target")),
        text("see target"),
        OrgEvent::LeaveLink { path: format!("id:{H1}") },
        OrgEvent::LeaveParagraph,
        OrgEvent::LeaveSection,
    ];
    let (_e, tables) = plan_corpus(&[("target.org", &target), ("source.org", &source)]);
    let (outputs, warnings) = run_one("source.org", &source, &tables);
    assert!(warnings.is_empty());
    let file_out = outputs.iter().find(|o| matches!(o.0, ExportContext::File)).unwrap();
    assert!(file_out.1.contains("[[target][see target]]"));
}

#[test]
fn link_round_trip_without_description() {
    let target = vec![headline(1, "Target", &["export"], &[&format!(":ID: {H1}")[..]], 5, 30)];
    let source = vec![
        kw("#+filetags: :export:"),
        id_link(H1, None),
        OrgEvent::LeaveLink { path: format!("id:{H1}") },
    ];
    let (_e, tables) = plan_corpus(&[("target.org", &target), ("source.org", &source)]);
    let (outputs, _w) = run_one("source.org", &source, &tables);
    assert!(outputs[0].1.contains("[[target]]"));
    assert!(!outputs[0].1.contains("]("));
}

#[test]
fn unresolved_link_writes_placeholder_and_warns() {
    let source = vec![
        kw("#+filetags: :export:"),
        id_link(ABSENT, Some("gone")),
        text("gone"),
        OrgEvent::LeaveLink { path: format!("id:{ABSENT}") },
        text("continues"),
    ];
    let (_e, tables) = plan_corpus(&[("source.org", &source)]);
    let (outputs, warnings) = run_one("source.org", &source, &tables);
    assert_eq!(outputs.len(), 1);
    let body = &outputs[0].1;
    assert!(body.contains(&format!("link to non-existent uuid {ABSENT}")));
    // The skipped link description is not rendered; later text is.
    assert!(body.contains("continues"));
    assert!(!body.contains("gone"));
    assert_eq!(warnings.len(), 1);
    match &warnings[0] {
        Warning::UnresolvedLink { id_raw, description, context } => {
            assert_eq!(id_raw, ABSENT);
            assert_eq!(description, "gone");
            assert_eq!(context, "file");
        },
        _ => panic!("expected an unresolved-link warning"),
    }
}

#[test]
fn malformed_link_id_is_treated_as_unresolved() {
    let source = vec![
        kw("#+filetags: :export:"),
        OrgEvent::EnterLink(LinkInfo {
            path: "id:not-a-uuid".to_string(),
            has_description: false,
            description: String::new(),
            is_image: false,
        }),
        OrgEvent::LeaveLink { path: "id:not-a-uuid".to_string() },
    ];
    let (_e, tables) = plan_corpus(&[("source.org", &source)]);
    let (outputs, warnings) = run_one("source.org", &source, &tables);
    assert!(outputs[0].1.contains("link to non-existent uuid not-a-uuid"));
    assert_eq!(warnings.len(), 1);
}

#[test]
fn table_is_skipped_with_warning() {
    let source = vec![
        kw("#+filetags: :export:"),
        text("before"),
        OrgEvent::EnterTable { first_line: "| a | b |".to_string() },
        OrgEvent::EnterTableRow,
        OrgEvent::EnterTableCell,
        text("a"),
        OrgEvent::LeaveTableCell,
        OrgEvent::LeaveTableRow,
        OrgEvent::LeaveTable,
        text("after"),
    ];
    let (_e, tables) = plan_corpus(&[("t.org", &source)]);
    let (outputs, warnings) = run_one("t.org", &source, &tables);
    assert_eq!(outputs.len(), 1);
    let body = &outputs[0].1;
    assert!(body.contains("before\nskipped table\nafter"));
    // Cell contents were passed over.
    assert!(!body.contains("\na\n"));
    assert_eq!(warnings.len(), 1);
    match &warnings[0] {
        Warning::SkippedTable { first_line, context } => {
            assert_eq!(first_line, "| a | b |");
            assert_eq!(context, "file");
        },
        _ => panic!("expected a skipped-table warning"),
    }
}

#[test]
fn nesting_three_depths_yields_three_files() {
    let a = "11111111-1111-1111-1111-111111111111";
    let b = "22222222-2222-2222-2222-222222222222";
    let c = "33333333-3333-3333-3333-333333333333";
    let source = vec![
        headline(1, "Outer", &["export"], &[&format!(":ID: {a}")[..]], 0, 100),
        headline(2, "Middle", &["export"], &[&format!(":ID: {b}")[..]], 10, 90),
        headline(3, "Inner", &["export"], &[&format!(":ID: {c}")[..]], 20, 80),
        headline(4, "Leaf", &[], &[], 30, 70),
        text("deep content"),
    ];
    let (_e, tables) = plan_corpus(&[("n.org", &source)]);
    let (outputs, _w) = run_one("n.org", &source, &tables);
    assert_eq!(outputs.len(), 3);
    // Innermost first.
    let titles: Vec<String> = outputs
        .iter()
        .map(|o| match &o.0 {
            ExportContext::Headline(h) => h.title.clone(),
            ExportContext::File => "file".to_string(),
        })
        .collect();
    assert_eq!(titles, vec!["Inner", "Middle", "Outer"]);
    // The level-4 headline renders renumbered against its level-3 anchor.
    assert!(outputs[0].1.contains("# Leaf"));
    assert!(!outputs[0].1.contains("## Leaf"));
    assert!(outputs[0].1.contains("deep content"));
    // Each outer file holds an embed for its inner child, not the content.
    assert!(outputs[1].1.contains("![[inner.md]]"));
    assert!(!outputs[1].1.contains("deep content"));
    assert!(outputs[2].1.contains("![[middle.md]]"));
}

#[test]
fn every_output_starts_with_front_matter() {
    let events = notes_doc();
    let (_e, tables) = plan_corpus(&[("notes.org", &events)]);
    let (outputs, _w) = run_one("notes.org", &events, &tables);
    for (_ctx, body) in &outputs {
        assert!(body.starts_with("---\n"));
        assert!(body.contains("title: "));
    }
}

#[test]
fn exported_headline_without_id_leaves_placeholder() {
    let source = vec![
        kw("#+filetags: :export:"),
        headline(1, "Nameless", &["export"], &[], 0, 10),
    ];
    let (_e, tables) = plan_corpus(&[("p.org", &source)]);
    let (outputs, warnings) = run_one("p.org", &source, &tables);
    // Both contexts still finish; the parent holds the placeholder.
    assert_eq!(outputs.len(), 2);
    assert!(outputs[1].1.contains("exported headline Nameless with no id"));
    assert_eq!(warnings.len(), 1);
    assert!(matches!(&warnings[0], Warning::MissingSectionId { title } if title == "Nameless"));
    // And no filename resolves for the nameless section: it is skipped.
    let name = output_name(&outputs[0].0, "p.org", &tables.files, &tables.sections);
    assert!(name.is_none());
}

#[test]
fn duplicate_identifier_is_fatal() {
    let d1 = vec![headline(1, "One", &["export"], &[&format!(":ID: {F1}")[..]], 0, 5)];
    let d2 = vec![headline(1, "Two", &["export"], &[&format!(":ID: {F1}")[..]], 0, 5)];
    let mut entries = index_document("a.org", &d1).unwrap();
    entries.append(&mut index_document("b.org", &d2).unwrap());
    match check_unique(&entries) {
        Err(IndexError::DuplicateIdentifier { id, first, second }) => {
            assert_eq!(uuid_to_string(id), F1);
            assert!(matches!(first, NodeRec::Section { title, .. } if title == "One"));
            assert!(matches!(second, NodeRec::Section { title, .. } if title == "Two"));
        },
        _ => panic!("expected a duplicate-identifier error"),
    }
}

#[test]
fn invalid_file_identifier_is_fatal() {
    let doc = vec![drawer(&[":ID: zzz"])];
    match index_document("bad.org", &doc) {
        Err(IndexError::InvalidIdentifier { path, context, raw }) => {
            assert_eq!(path, "bad.org");
            assert_eq!(context, "file");
            assert_eq!(raw, "zzz");
        },
        _ => panic!("expected an invalid-identifier error"),
    }
}

#[test]
fn invalid_headline_identifier_names_the_headline() {
    let doc = vec![headline(1, "Broken", &[], &[":ID: 123"], 0, 5)];
    match index_document("bad.org", &doc) {
        Err(IndexError::InvalidIdentifier { context, .. }) => {
            assert_eq!(context, "Broken");
        },
        _ => panic!("expected an invalid-identifier error"),
    }
}

#[test]
fn file_identity_after_first_headline_is_ignored() {
    let doc = vec![
        headline(1, "First", &[], &[], 0, 5),
        drawer(&[&format!(":ID: {F1}")[..]]),
    ];
    let entries = index_document("late.org", &doc).unwrap();
    assert!(entries.is_empty());
}

#[test]
fn identifier_parsing_is_canonicalising() {
    // Uppercase, unhyphenated input parses to the same value and
    // renders back in canonical hyphenated lowercase.
    let doc = vec![drawer(&[":ID: 0102030405060708090A0B0C0D0E0F10"])];
    let entries = index_document("c.org", &doc).unwrap();
    assert_eq!(entries.len(), 1);
    assert_eq!(
        uuid_to_string(entries[0].id),
        "01020304-0506-0708-090a-0b0c0d0e0f10"
    );
}

#[test]
fn file_stem_strips_directories_and_extension() {
    let doc = vec![drawer(&[&format!(":ID: {F1}")[..]])];
    let entries = index_document("dir/sub/notes.tar.org", &doc).unwrap();
    let files = file_slugs(&entries);
    assert_eq!(files[0].1, "notes.tar");
}

#[test]
fn inline_markup_renders() {
    let source = vec![
        kw("#+filetags: :export:"),
        OrgEvent::EnterBold,
        text("b"),
        OrgEvent::LeaveBold,
        OrgEvent::EnterItalic,
        text("i"),
        OrgEvent::LeaveItalic,
        OrgEvent::EnterStrike,
        text("s"),
        OrgEvent::LeaveStrike,
        OrgEvent::EnterCode,
        text("c"),
        OrgEvent::LeaveCode,
        OrgEvent::EnterSubscript,
        text("x"),
        OrgEvent::LeaveSubscript,
        OrgEvent::EnterSuperscript,
        text("y"),
        OrgEvent::LeaveSuperscript,
        OrgEvent::Rule,
        OrgEvent::LatexFragment { raw: "$x^2$".to_string() },
        OrgEvent::Entity { utf8: "…".to_string() },
    ];
    let (_e, tables) = plan_corpus(&[("m.org", &source)]);
    let (outputs, _w) = run_one("m.org", &source, &tables);
    let body = &outputs[0].1;
    assert!(body.contains("**b**"));
    assert!(body.contains("*i*"));
    assert!(body.contains("~~s~~"));
    assert!(body.contains("`c`"));
    assert!(body.contains("<sub>x</sub>"));
    assert!(body.contains("<sup>y</sup>"));
    assert!(body.contains("\n-----\n"));
    assert!(body.contains("$x^2$"));
    assert!(body.contains("…"));
}

#[test]
fn block_constructs_render() {
    let source = vec![
        kw("#+filetags: :export:"),
        OrgEvent::EnterSourceBlock { language: Some("rust".to_string()) },
        text("\nlet x = 1;\n"),
        OrgEvent::LeaveSourceBlock,
        OrgEvent::EnterQuoteBlock,
        text("line1\nline2"),
        OrgEvent::LeaveQuoteBlock,
        OrgEvent::EnterList,
        OrgEvent::EnterListItem { indent: 2, bullet: "- ".to_string() },
        text("item"),
        OrgEvent::LeaveListItem,
        OrgEvent::LeaveList,
    ];
    let (_e, tables) = plan_corpus(&[("b.org", &source)]);
    let (outputs, _w) = run_one("b.org", &source, &tables);
    let body = &outputs[0].1;
    assert!(body.contains("```rust\nlet x = 1;\n```\n"));
    assert!(body.contains("> line1\n> line2"));
    assert!(body.contains("  - item"));
}

#[test]
fn file_links_render() {
    let source = vec![
        kw("#+filetags: :export:"),
        OrgEvent::EnterLink(LinkInfo {
            path: "file:pics/x.png".to_string(),
            has_description: false,
            description: String::new(),
            is_image: true,
        }),
        OrgEvent::LeaveLink { path: "file:pics/x.png".to_string() },
        OrgEvent::EnterLink(LinkInfo {
            path: "notes/other.org".to_string(),
            has_description: false,
            description: String::new(),
            is_image: false,
        }),
        OrgEvent::LeaveLink { path: "notes/other.org".to_string() },
        OrgEvent::EnterLink(LinkInfo {
            path: "https://example.com".to_string(),
            has_description: true,
            description: "a site".to_string(),
            is_image: false,
        }),
        text("a site"),
        OrgEvent::LeaveLink { path: "https://example.com".to_string() },
        OrgEvent::EnterLink(LinkInfo {
            path: "file:local.org".to_string(),
            has_description: true,
            description: "local".to_string(),
            is_image: false,
        }),
        text("local"),
        OrgEvent::LeaveLink { path: "file:local.org".to_string() },
    ];
    let (_e, tables) = plan_corpus(&[("l.org", &source)]);
    let (outputs, _w) = run_one("l.org", &source, &tables);
    let body = &outputs[0].1;
    assert!(body.contains("![](pics/x.png)"));
    assert!(body.contains("[notes/other.org](notes/other.org)"));
    assert!(body.contains("[a site](https://example.com)"));
    // The closing target of a described local-file link is also
    // stripped of its file scheme.
    assert!(body.contains("[local](local.org)"));
    assert!(!body.contains("file:local.org"));
}

#[test]
fn heading_depth_clamps_at_six() {
    let source = vec![
        kw("#+filetags: :export:"),
        headline(9, "Very Deep", &[], &[], 0, 5),
    ];
    let (_e, tables) = plan_corpus(&[("d.org", &source)]);
    let (outputs, _w) = run_one("d.org", &source, &tables);
    assert!(outputs[0].1.contains("###### Very Deep"));
    assert!(!outputs[0].1.contains("####### Very Deep"));
}

#[test]
fn per_event_api_reports_skips() {
    let mut ex = roam_export::split::MarkdownExport::new("s.org".to_string(), Vec::new(), Vec::new());
    // Keywords and drawers always have their children passed over.
    assert!(ex.event(&kw("#+filetags: :export:")));
    assert!(ex.event(&drawer(&[":ID: not-even-checked-here"])));
    // Ordinary rendering events do not skip.
    assert!(!ex.event(&text("hello")));
    // A table does.
    assert!(ex.event(&OrgEvent::EnterTable { first_line: "|".to_string() }));
    let (outputs, warnings) = ex.finish();
    assert_eq!(outputs.len(), 1);
    assert!(outputs[0].1.contains("hello"));
    assert_eq!(warnings.len(), 1);
}

#[test]
fn document_without_export_marker_yields_nothing() {
    let source = vec![
        kw("#+title: Quiet"),
        headline(1, "Plain", &[], &[], 0, 5),
        text("content"),
    ];
    let (_e, tables) = plan_corpus(&[("q.org", &source)]);
    let (outputs, warnings) = run_one("q.org", &source, &tables);
    assert!(outputs.is_empty());
    assert!(warnings.is_empty());
}
