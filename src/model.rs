//! The values handed back to callers, and their mathematical views.
use vstd::prelude::*;
use crate::text::string_views;

verus! {

/// The kind of one grouped edit operation.
#[derive(Clone, Copy, Debug, PartialEq, Eq, Structural)]
pub enum DeltaKind {
    Insert,
    Delete,
    Change,
}

/// One grouped edit operation, anchored at a line of the current text.
#[derive(Clone, Debug)]
pub struct Delta {
    pub kind: DeltaKind,
    /// Zero-based line index in the current text where this delta applies.
    pub target_position: u32,
    /// Lines from the previous version (empty for pure inserts).
    pub source_lines: Vec<String>,
    /// Lines from the current version (empty for pure deletes).
    pub target_lines: Vec<String>,
}

/// A delta with its lines seen as character sequences.
pub struct DeltaView {
    pub kind: DeltaKind,
    pub target_position: u32,
    pub source_lines: Seq<Seq<char>>,
    pub target_lines: Seq<Seq<char>>,
}

impl View for Delta {
    type V = DeltaView;

    open spec fn view(&self) -> DeltaView {
        DeltaView {
            kind: self.kind,
            target_position: self.target_position,
            source_lines: string_views(self.source_lines@),
            target_lines: string_views(self.target_lines@),
        }
    }
}

/// The deltas of a sequence, each seen through its view.
pub open spec fn delta_views(v: Seq<Delta>) -> Seq<DeltaView> {
    v.map_values(|d: Delta| d@)
}

/// A coarse range of lines touched by one operation.
#[derive(Clone, Copy, Debug, PartialEq, Eq, Structural)]
pub struct LineBlock {
    pub kind: DeltaKind,
    pub start_line: u32,
    pub line_count: u32,
}

/// A highlighted range of one line of the current text.
#[derive(Clone, Copy, Debug, PartialEq, Eq, Structural)]
pub struct InlineSpan {
    /// Line index in the current text.
    pub line: u32,
    /// Start column in UTF-16 code units.
    pub start_col_utf16: u32,
    /// End column (exclusive) in UTF-16 code units.
    pub end_col_utf16: u32,
}

/// Line blocks and inline spans, both in ascending position.
#[derive(Clone, Debug)]
pub struct Decorations {
    pub line_blocks: Vec<LineBlock>,
    pub inline_spans: Vec<InlineSpan>,
}

/// Decorations seen as sequences.
pub struct DecorationsView {
    pub line_blocks: Seq<LineBlock>,
    pub inline_spans: Seq<InlineSpan>,
}

impl View for Decorations {
    type V = DecorationsView;

    open spec fn view(&self) -> DecorationsView {
        DecorationsView { line_blocks: self.line_blocks@, inline_spans: self.inline_spans@ }
    }
}

} // verus!
