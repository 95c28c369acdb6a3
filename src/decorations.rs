//! Line blocks and inline highlight spans for a block sequence.
use vstd::prelude::*;
use crate::grouping::{sat_add, saturating_add_len};
use crate::grouping::grouped;
use crate::laws::{
    all_same, lemma_positions_non_decreasing, lemma_spans_fit_lines, lemma_spans_within_changes,
    lemma_unchanged_blocks_yield_nothing, span_lines_sorted, spans_fit_lines, spans_from_changes,
    start_lines_sorted,
};
use crate::rebuild::{lemma_deltas_rebuild_text, no_empty_block};
use crate::model::{Decorations, DecorationsView, DeltaKind, InlineSpan, LineBlock};
use crate::raw::{BlockTag, RawBlock, block_views, line_diff, line_diff_of, pieces_upto, removals_apart};
use crate::span::{changed_span_utf16, clamp_len, clamp_u32, span_utf16};
use crate::text::{lines_of, split_lines, string_views};

verus! {

/// The state of the traversal: the current-text line cursor, a removal that waits for a
/// following addition, and the line blocks and spans emitted so far.
pub struct DecoState {
    pub cursor: u32,
    pub pending: Option<(u32, Seq<Seq<char>>)>,
    pub line_blocks: Seq<LineBlock>,
    pub spans: Seq<InlineSpan>,
}

/// The line blocks emitted so far, with a waiting removal emitted as a delete block.
pub open spec fn flushed_blocks(st: DecoState) -> Seq<LineBlock> {
    match st.pending {
        Some((p, s)) => st.line_blocks.push(
            LineBlock { kind: DeltaKind::Delete, start_line: p, line_count: clamp_u32(s.len()) },
        ),
        None => st.line_blocks,
    }
}

/// The spans of the first `k` old/new line pairs of a change at line `pos`.
pub open spec fn pair_spans(pos: u32, src: Seq<Seq<char>>, tgt: Seq<Seq<char>>, k: nat) -> Seq<InlineSpan>
    decreases k,
{
    if k == 0 {
        Seq::empty()
    } else {
        let prev = pair_spans(pos, src, tgt, (k - 1) as nat);
        match span_utf16(src[k - 1], tgt[k - 1]) {
            Some((s, e)) => prev.push(
                InlineSpan { line: sat_add(pos, (k - 1) as nat), start_col_utf16: s, end_col_utf16: e },
            ),
            None => prev,
        }
    }
}

/// The spans of a change at line `pos`: one per differing pair, up to the shorter side.
pub open spec fn change_spans(pos: u32, src: Seq<Seq<char>>, tgt: Seq<Seq<char>>) -> Seq<InlineSpan> {
    pair_spans(pos, src, tgt, if src.len() <= tgt.len() { src.len() } else { tgt.len() })
}

/// The state after one more block.
pub open spec fn deco_step(st: DecoState, b: (BlockTag, Seq<char>)) -> DecoState {
    let lines = lines_of(b.1);
    match b.0 {
        BlockTag::Same => DecoState {
            cursor: sat_add(st.cursor, lines.len()),
            pending: None,
            line_blocks: flushed_blocks(st),
            spans: st.spans,
        },
        BlockTag::Removed => DecoState { pending: Some((st.cursor, lines)), ..st },
        BlockTag::Added => match st.pending {
            Some((p, s)) => DecoState {
                cursor: sat_add(st.cursor, lines.len()),
                pending: None,
                line_blocks: st.line_blocks.push(
                    LineBlock { kind: DeltaKind::Change, start_line: p, line_count: clamp_u32(lines.len()) },
                ),
                spans: st.spans + change_spans(p, s, lines),
            },
            None => DecoState {
                cursor: sat_add(st.cursor, lines.len()),
                pending: None,
                line_blocks: st.line_blocks.push(
                    LineBlock { kind: DeltaKind::Insert, start_line: st.cursor, line_count: clamp_u32(lines.len()) },
                ),
                spans: st.spans,
            },
        },
    }
}

/// The state after the first `n` blocks.
pub open spec fn deco_run(blocks: Seq<(BlockTag, Seq<char>)>, n: nat) -> DecoState
    decreases n,
{
    if n == 0 || n > blocks.len() {
        DecoState { cursor: 0, pending: None, line_blocks: Seq::empty(), spans: Seq::empty() }
    } else {
        deco_step(deco_run(blocks, (n - 1) as nat), blocks[n - 1])
    }
}

/// The decorations of a whole block sequence.
pub open spec fn decorated(blocks: Seq<(BlockTag, Seq<char>)>) -> DecorationsView {
    let st = deco_run(blocks, blocks.len());
    DecorationsView { line_blocks: flushed_blocks(st), inline_spans: st.spans }
}

/// Appends the spans of a change at line `pos` with old lines `src` and new lines `tgt`.
pub fn push_change_spans(spans: &mut Vec<InlineSpan>, pos: u32, src: &Vec<String>, tgt: &Vec<String>)
    ensures
        final(spans)@ == old(spans)@ + change_spans(pos, string_views(src@), string_views(tgt@)),
{
    let ghost s = string_views(src@);
    let ghost t = string_views(tgt@);
    let n: usize = if src.len() <= tgt.len() { src.len() } else { tgt.len() };
    let mut i: usize = 0;
    while i < n
        invariant
            s == string_views(src@),
            t == string_views(tgt@),
            n == (if src.len() <= tgt.len() { src.len() } else { tgt.len() }),
            i <= n,
            spans@ == old(spans)@ + pair_spans(pos, s, t, i as nat),
        decreases n - i,
    {
        let r = changed_span_utf16(src[i].as_str(), tgt[i].as_str());
        proof {
            assert(s[i as int] == src@[i as int]@);
            assert(t[i as int] == tgt@[i as int]@);
        }
        if let Some((start, end)) = r {
            let line = saturating_add_len(pos, i);
            spans.push(InlineSpan { line, start_col_utf16: start, end_col_utf16: end });
        }
        proof {
            assert(spans@ =~= old(spans)@ + pair_spans(pos, s, t, (i + 1) as nat));
        }
        i = i + 1;
    }
}

/// Builds line blocks for every operation and inline spans for the lines of each change.
pub fn build_decorations(blocks: &Vec<RawBlock>) -> (r: Decorations)
    ensures
        r@ == decorated(block_views(blocks@)),
{
    let ghost bv = block_views(blocks@);
    let mut line_blocks: Vec<LineBlock> = Vec::new();
    let mut inline_spans: Vec<InlineSpan> = Vec::new();
    let mut cursor: u32 = 0;
    let mut pending: Option<(u32, Vec<String>)> = None;
    let mut k: usize = 0;
    while k < blocks.len()
        invariant
            bv == block_views(blocks@),
            k <= blocks.len(),
            deco_run(bv, k as nat) == (DecoState {
                cursor,
                pending: match pending {
                    Some((p, s)) => Some((p, string_views(s@))),
                    None => None,
                },
                line_blocks: line_blocks@,
                spans: inline_spans@,
            }),
        decreases blocks.len() - k,
    {
        let block = &blocks[k];
        let lines = split_lines(block.text.as_str());
        proof {
            assert(bv[k as int] == block@);
        }
        match block.tag {
            BlockTag::Same => {
                if let Some((pos, src)) = pending {
                    line_blocks.push(LineBlock { kind: DeltaKind::Delete, start_line: pos, line_count: clamp_len(src.len()) });
                }
                pending = None;
                cursor = saturating_add_len(cursor, lines.len());
            },
            BlockTag::Removed => {
                pending = Some((cursor, lines));
            },
            BlockTag::Added => {
                let count = clamp_len(lines.len());
                if let Some((pos, src)) = pending {
                    line_blocks.push(LineBlock { kind: DeltaKind::Change, start_line: pos, line_count: count });
                    push_change_spans(&mut inline_spans, pos, &src, &lines);
                } else {
                    line_blocks.push(LineBlock { kind: DeltaKind::Insert, start_line: cursor, line_count: count });
                }
                pending = None;
                cursor = saturating_add_len(cursor, lines.len());
            },
        }
        k = k + 1;
    }
    if let Some((pos, src)) = pending {
        line_blocks.push(LineBlock { kind: DeltaKind::Delete, start_line: pos, line_count: clamp_len(src.len()) });
    }
    Decorations { line_blocks, inline_spans }
}

proof fn lemma_spans_fit_current(bv: Seq<(BlockTag, Seq<char>)>, previous: Seq<char>, current: Seq<char>)
    requires
        pieces_upto(bv, BlockTag::Added, bv.len()) == lines_of(previous),
        pieces_upto(bv, BlockTag::Removed, bv.len()) == lines_of(current),
        removals_apart(bv),
    ensures
        no_empty_block(bv) && lines_of(current).len() <= u32::MAX ==> spans_fit_lines(
            lines_of(current),
            decorated(bv).inline_spans,
        ),
{
    if no_empty_block(bv) && lines_of(current).len() <= u32::MAX {
        lemma_spans_within_changes(bv);
        lemma_deltas_rebuild_text(bv, previous, current);
        lemma_spans_fit_lines(grouped(bv), decorated(bv).inline_spans, lines_of(current));
    }
}

/// Computes line blocks and UTF-16 inline spans for the changes from `previous` to `current`.
pub fn compute_decorations(previous: String, current: String) -> (r: Decorations)
    ensures
        r@ == decorated(line_diff_of(previous@, current@)),
        previous@ == current@ ==> r.line_blocks@.len() == 0 && r.inline_spans@.len() == 0,
        start_lines_sorted(r.line_blocks@),
        span_lines_sorted(r.inline_spans@),
        spans_from_changes(grouped(line_diff_of(previous@, current@)), r.inline_spans@),
        no_empty_block(line_diff_of(previous@, current@)) && lines_of(current@).len() <= u32::MAX
            ==> spans_fit_lines(lines_of(current@), r.inline_spans@),
{
    let blocks = line_diff(previous.as_str(), current.as_str());
    proof {
        let bv = block_views(blocks@);
        lemma_positions_non_decreasing(bv);
        lemma_spans_within_changes(bv);
        lemma_spans_fit_current(bv, previous@, current@);
        if previous@ == current@ {
            assert(all_same(block_views(blocks@)));
            lemma_unchanged_blocks_yield_nothing(block_views(blocks@));
        }
    }
    build_decorations(&blocks)
}

} // verus!
