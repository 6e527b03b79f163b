//! The closed set of constructs a parsed document is delivered as: a
//! traversal event stream over one document's tree. A host adapter
//! turns the parser's events into these; the verified passes consume
//! them.

use vstd::prelude::*;

verus! {

/// A headline as the traversal sees it on entry: its depth, raw title
/// text, tags, raw property-drawer lines, and source range.
pub struct HeadlineInfo {
    pub level: usize,
    pub title: String,
    pub tags: Vec<String>,
    pub props: Vec<String>,
    pub start: u32,
    pub end: u32,
}

/// A link as the traversal sees it on entry.
pub struct LinkInfo {
    pub path: String,
    pub has_description: bool,
    pub description: String,
    pub is_image: bool,
}

/// One traversal event. `Enter`/`Leave` pairs nest; keyword and
/// property-drawer events are atomic (their contents ride along).
pub enum OrgEvent {
    EnterDocument,
    LeaveDocument,
    Keyword { raw: String },
    PropertyDrawer { props: Vec<String> },
    EnterHeadline(HeadlineInfo),
    LeaveHeadline,
    EnterSection,
    LeaveSection,
    EnterParagraph,
    LeaveParagraph,
    EnterItalic,
    LeaveItalic,
    EnterBold,
    LeaveBold,
    EnterStrike,
    LeaveStrike,
    EnterUnderline,
    LeaveUnderline,
    EnterVerbatim,
    LeaveVerbatim,
    EnterCode,
    LeaveCode,
    EnterSourceBlock { language: Option<String> },
    LeaveSourceBlock,
    EnterQuoteBlock,
    LeaveQuoteBlock,
    EnterCommentBlock,
    LeaveCommentBlock,
    EnterComment,
    LeaveComment,
    EnterSubscript,
    LeaveSubscript,
    EnterSuperscript,
    LeaveSuperscript,
    EnterList,
    LeaveList,
    EnterListItem { indent: usize, bullet: String },
    LeaveListItem,
    EnterTable { first_line: String },
    LeaveTable,
    EnterTableRow,
    LeaveTableRow,
    EnterTableCell,
    LeaveTableCell,
    EnterLink(LinkInfo),
    LeaveLink { path: String },
    Text { text: String },
    LineBreak,
    Snippet,
    Rule,
    Timestamp,
    LatexFragment { raw: String },
    LatexEnvironment { raw: String },
    Entity { utf8: String },
}

/// Whether the event opens a nested construct.
pub open spec fn is_enter_spec(e: OrgEvent) -> bool {
    match e {
        OrgEvent::EnterDocument => true,
        OrgEvent::EnterHeadline(_) => true,
        OrgEvent::EnterSection => true,
        OrgEvent::EnterParagraph => true,
        OrgEvent::EnterItalic => true,
        OrgEvent::EnterBold => true,
        OrgEvent::EnterStrike => true,
        OrgEvent::EnterUnderline => true,
        OrgEvent::EnterVerbatim => true,
        OrgEvent::EnterCode => true,
        OrgEvent::EnterSourceBlock { .. } => true,
        OrgEvent::EnterQuoteBlock => true,
        OrgEvent::EnterCommentBlock => true,
        OrgEvent::EnterComment => true,
        OrgEvent::EnterSubscript => true,
        OrgEvent::EnterSuperscript => true,
        OrgEvent::EnterList => true,
        OrgEvent::EnterListItem { .. } => true,
        OrgEvent::EnterTable { .. } => true,
        OrgEvent::EnterTableRow => true,
        OrgEvent::EnterTableCell => true,
        OrgEvent::EnterLink(_) => true,
        _ => false,
    }
}

/// Whether the event closes a nested construct.
pub open spec fn is_leave_spec(e: OrgEvent) -> bool {
    match e {
        OrgEvent::LeaveDocument => true,
        OrgEvent::LeaveHeadline => true,
        OrgEvent::LeaveSection => true,
        OrgEvent::LeaveParagraph => true,
        OrgEvent::LeaveItalic => true,
        OrgEvent::LeaveBold => true,
        OrgEvent::LeaveStrike => true,
        OrgEvent::LeaveUnderline => true,
        OrgEvent::LeaveVerbatim => true,
        OrgEvent::LeaveCode => true,
        OrgEvent::LeaveSourceBlock => true,
        OrgEvent::LeaveQuoteBlock => true,
        OrgEvent::LeaveCommentBlock => true,
        OrgEvent::LeaveComment => true,
        OrgEvent::LeaveSubscript => true,
        OrgEvent::LeaveSuperscript => true,
        OrgEvent::LeaveList => true,
        OrgEvent::LeaveListItem => true,
        OrgEvent::LeaveTable => true,
        OrgEvent::LeaveTableRow => true,
        OrgEvent::LeaveTableCell => true,
        OrgEvent::LeaveLink { .. } => true,
        _ => false,
    }
}

pub fn is_enter_event(e: &OrgEvent) -> (b: bool)
    ensures
        b == is_enter_spec(*e),
{
    match e {
        OrgEvent::EnterDocument => true,
        OrgEvent::EnterHeadline(_) => true,
        OrgEvent::EnterSection => true,
        OrgEvent::EnterParagraph => true,
        OrgEvent::EnterItalic => true,
        OrgEvent::EnterBold => true,
        OrgEvent::EnterStrike => true,
        OrgEvent::EnterUnderline => true,
        OrgEvent::EnterVerbatim => true,
        OrgEvent::EnterCode => true,
        OrgEvent::EnterSourceBlock { .. } => true,
        OrgEvent::EnterQuoteBlock => true,
        OrgEvent::EnterCommentBlock => true,
        OrgEvent::EnterComment => true,
        OrgEvent::EnterSubscript => true,
        OrgEvent::EnterSuperscript => true,
        OrgEvent::EnterList => true,
        OrgEvent::EnterListItem { .. } => true,
        OrgEvent::EnterTable { .. } => true,
        OrgEvent::EnterTableRow => true,
        OrgEvent::EnterTableCell => true,
        OrgEvent::EnterLink(_) => true,
        _ => false,
    }
}

pub fn is_leave_event(e: &OrgEvent) -> (b: bool)
    ensures
        b == is_leave_spec(*e),
{
    match e {
        OrgEvent::LeaveDocument => true,
        OrgEvent::LeaveHeadline => true,
        OrgEvent::LeaveSection => true,
        OrgEvent::LeaveParagraph => true,
        OrgEvent::LeaveItalic => true,
        OrgEvent::LeaveBold => true,
        OrgEvent::LeaveStrike => true,
        OrgEvent::LeaveUnderline => true,
        OrgEvent::LeaveVerbatim => true,
        OrgEvent::LeaveCode => true,
        OrgEvent::LeaveSourceBlock => true,
        OrgEvent::LeaveQuoteBlock => true,
        OrgEvent::LeaveCommentBlock => true,
        OrgEvent::LeaveComment => true,
        OrgEvent::LeaveSubscript => true,
        OrgEvent::LeaveSuperscript => true,
        OrgEvent::LeaveList => true,
        OrgEvent::LeaveListItem => true,
        OrgEvent::LeaveTable => true,
        OrgEvent::LeaveTableRow => true,
        OrgEvent::LeaveTableCell => true,
        OrgEvent::LeaveLink { .. } => true,
        _ => false,
    }
}

} // verus!
