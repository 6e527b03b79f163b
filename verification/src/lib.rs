//! Verified core of an org-roam note exporter.
//!
//! A corpus of org documents is turned into standalone markdown files,
//! one per export-tagged file or section, with identifier links rewritten
//! to point at the produced files.

use vstd::prelude::*;

pub mod chars;
pub mod events;
pub mod idfmt;
pub mod index;
pub mod laws;
pub mod plan;
pub mod split;
pub mod trusted;

verus! {

/// Extension given to every produced output file.
pub open spec fn out_ext() -> Seq<char> {
    ".md"@
}

} // verus!
