//! Laws relating the deltas and the decorations of one block sequence.
use vstd::prelude::*;
use crate::decorations::{
    DecoState, change_spans, decorated, deco_run, deco_step, flushed_blocks, pair_spans,
};
use crate::grouping::{GroupState, flushed, group_run, group_step, grouped, sat_add};
use crate::model::{DeltaKind, DeltaView, InlineSpan, LineBlock};
use crate::raw::BlockTag;
use crate::rebuild::targets_placed;
use crate::span::{clamp_u32, lemma_span_utf16_bounds, span_utf16};
use crate::text::utf16_of;

verus! {

/// The number of current-text lines a delta occupies, as a line block records it.
pub open spec fn block_line_count(d: DeltaView) -> u32 {
    if d.kind == DeltaKind::Delete {
        clamp_u32(d.source_lines.len())
    } else {
        clamp_u32(d.target_lines.len())
    }
}

/// Each line block has the kind and the position of the delta at its index, and counts its lines.
pub open spec fn blocks_describe(ds: Seq<DeltaView>, bs: Seq<LineBlock>) -> bool {
    &&& ds.len() == bs.len()
    &&& forall|i: int|
        0 <= i < ds.len() ==> {
            &&& (#[trigger] bs[i]).kind == ds[i].kind
            &&& bs[i].start_line == ds[i].target_position
            &&& bs[i].line_count == block_line_count(ds[i])
        }
}

spec fn states_agree(g: GroupState, d: DecoState) -> bool {
    &&& g.cursor == d.cursor
    &&& g.pending == d.pending
    &&& blocks_describe(g.out, d.line_blocks)
}

proof fn lemma_states_agree(blocks: Seq<(BlockTag, Seq<char>)>, n: nat)
    ensures
        states_agree(group_run(blocks, n), deco_run(blocks, n)),
    decreases n,
{
    if n == 0 || n > blocks.len() {
    } else {
        lemma_states_agree(blocks, (n - 1) as nat);
        let g = group_run(blocks, (n - 1) as nat);
        let d = deco_run(blocks, (n - 1) as nat);
        let g2 = group_step(g, blocks[n - 1]);
        let d2 = deco_step(d, blocks[n - 1]);
        assert(blocks_describe(g2.out, d2.line_blocks));
    }
}

/// The deltas and the line blocks of one block sequence describe the same changed regions:
/// one line block per delta, in the same order, with the same kind and position.
pub proof fn lemma_deltas_match_line_blocks(blocks: Seq<(BlockTag, Seq<char>)>)
    ensures
        blocks_describe(grouped(blocks), decorated(blocks).line_blocks),
{
    lemma_states_agree(blocks, blocks.len());
    let g = group_run(blocks, blocks.len());
    let d = deco_run(blocks, blocks.len());
    assert(blocks_describe(flushed(g), flushed_blocks(d)));
}

/// No block of the sequence is a removal or an addition.
pub open spec fn all_same(blocks: Seq<(BlockTag, Seq<char>)>) -> bool {
    forall|k: int| 0 <= k < blocks.len() ==> (#[trigger] blocks[k]).0 == BlockTag::Same
}

proof fn lemma_all_same_run(blocks: Seq<(BlockTag, Seq<char>)>, n: nat)
    requires
        all_same(blocks),
    ensures
        group_run(blocks, n).pending is None,
        group_run(blocks, n).out.len() == 0,
        deco_run(blocks, n).pending is None,
        deco_run(blocks, n).line_blocks.len() == 0,
        deco_run(blocks, n).spans.len() == 0,
    decreases n,
{
    if n == 0 || n > blocks.len() {
    } else {
        lemma_all_same_run(blocks, (n - 1) as nat);
        assert(blocks[n - 1].0 == BlockTag::Same);
    }
}

/// A block sequence with no removal and no addition yields no delta and no decoration.
pub proof fn lemma_unchanged_blocks_yield_nothing(blocks: Seq<(BlockTag, Seq<char>)>)
    requires
        all_same(blocks),
    ensures
        grouped(blocks).len() == 0,
        decorated(blocks).line_blocks.len() == 0,
        decorated(blocks).inline_spans.len() == 0,
{
    lemma_all_same_run(blocks, blocks.len());
}

/// Target positions never decrease along a sequence of deltas.
pub open spec fn positions_sorted(ds: Seq<DeltaView>) -> bool {
    forall|i: int, j: int|
        0 <= i < j < ds.len() ==> (#[trigger] ds[i]).target_position <= (#[trigger] ds[j]).target_position
}

/// Start lines never decrease along a sequence of line blocks.
pub open spec fn start_lines_sorted(bs: Seq<LineBlock>) -> bool {
    forall|i: int, j: int|
        0 <= i < j < bs.len() ==> (#[trigger] bs[i]).start_line <= (#[trigger] bs[j]).start_line
}

/// Lines never decrease along a sequence of inline spans.
pub open spec fn span_lines_sorted(ss: Seq<InlineSpan>) -> bool {
    forall|i: int, j: int| 0 <= i < j < ss.len() ==> (#[trigger] ss[i]).line <= (#[trigger] ss[j]).line
}

spec fn group_ordered(g: GroupState) -> bool {
    &&& g.pending matches Some((p, _)) ==> p == g.cursor
    &&& positions_sorted(g.out)
    &&& forall|i: int| 0 <= i < g.out.len() ==> (#[trigger] g.out[i]).target_position <= g.cursor
}

spec fn deco_ordered(d: DecoState) -> bool {
    &&& d.pending matches Some((p, _)) ==> p == d.cursor
    &&& span_lines_sorted(d.spans)
    &&& forall|i: int| 0 <= i < d.spans.len() ==> (#[trigger] d.spans[i]).line <= d.cursor
}

proof fn lemma_group_ordered(blocks: Seq<(BlockTag, Seq<char>)>, n: nat)
    ensures
        group_ordered(group_run(blocks, n)),
    decreases n,
{
    if n == 0 || n > blocks.len() {
    } else {
        lemma_group_ordered(blocks, (n - 1) as nat);
        let g = group_run(blocks, (n - 1) as nat);
        let g2 = group_step(g, blocks[n - 1]);
        assert(g2.out == flushed(g) || g2.out == g.out || g2.out.len() == g.out.len() + 1);
        assert(positions_sorted(g2.out));
    }
}

proof fn lemma_pair_spans_ordered(pos: u32, src: Seq<Seq<char>>, tgt: Seq<Seq<char>>, k: nat)
    ensures
        span_lines_sorted(pair_spans(pos, src, tgt, k)),
        forall|i: int|
            0 <= i < pair_spans(pos, src, tgt, k).len() ==> {
                &&& pos <= (#[trigger] pair_spans(pos, src, tgt, k)[i]).line
                &&& pair_spans(pos, src, tgt, k)[i].line <= sat_add(pos, k)
            },
    decreases k,
{
    if k > 0 {
        lemma_pair_spans_ordered(pos, src, tgt, (k - 1) as nat);
    }
}

proof fn lemma_deco_ordered(blocks: Seq<(BlockTag, Seq<char>)>, n: nat)
    ensures
        deco_ordered(deco_run(blocks, n)),
    decreases n,
{
    if n == 0 || n > blocks.len() {
    } else {
        lemma_deco_ordered(blocks, (n - 1) as nat);
        let d = deco_run(blocks, (n - 1) as nat);
        let b = blocks[n - 1];
        if b.0 == BlockTag::Added {
            if let Some((p, s)) = d.pending {
                let lines = crate::text::lines_of(b.1);
                let m = if s.len() <= lines.len() { s.len() } else { lines.len() };
                lemma_pair_spans_ordered(p, s, lines, m);
                let extra = change_spans(p, s, lines);
                let all = d.spans + extra;
                assert forall|i: int| 0 <= i < all.len() implies (#[trigger] all[i]).line <= sat_add(
                    d.cursor,
                    lines.len(),
                ) by {
                    if i >= d.spans.len() {
                        assert(extra[i - d.spans.len()] == all[i]);
                    }
                }
                assert forall|i: int, j: int| 0 <= i < j < all.len() implies (#[trigger] all[i]).line
                    <= (#[trigger] all[j]).line by {
                    if j >= d.spans.len() {
                        assert(extra[j - d.spans.len()] == all[j]);
                        if i >= d.spans.len() {
                            assert(extra[i - d.spans.len()] == all[i]);
                        }
                    }
                }
            }
        }
    }
}

/// Along the deltas, the line blocks and the inline spans of a block sequence, positions
/// never decrease.
pub proof fn lemma_positions_non_decreasing(blocks: Seq<(BlockTag, Seq<char>)>)
    ensures
        positions_sorted(grouped(blocks)),
        start_lines_sorted(decorated(blocks).line_blocks),
        span_lines_sorted(decorated(blocks).inline_spans),
{
    lemma_group_ordered(blocks, blocks.len());
    lemma_deco_ordered(blocks, blocks.len());
    lemma_deltas_match_line_blocks(blocks);
    let ds = grouped(blocks);
    let bs = decorated(blocks).line_blocks;
    assert forall|i: int, j: int| 0 <= i < j < bs.len() implies (#[trigger] bs[i]).start_line
        <= (#[trigger] bs[j]).start_line by {
        assert(ds[i].target_position <= ds[j].target_position);
    }
}

/// `sp` is the span of pair `i` of the change `ds[k]`: its line is the change's position plus
/// `i`, and its columns are the changed range of that pair's new line against its old line.
pub open spec fn span_from(ds: Seq<DeltaView>, sp: InlineSpan, k: int, i: int) -> bool {
    &&& 0 <= k < ds.len()
    &&& ds[k].kind == DeltaKind::Change
    &&& 0 <= i < ds[k].source_lines.len()
    &&& i < ds[k].target_lines.len()
    &&& sp.line == sat_add(ds[k].target_position, i as nat)
    &&& span_utf16(ds[k].source_lines[i], ds[k].target_lines[i]) == Some((sp.start_col_utf16, sp.end_col_utf16))
}

/// `sp` is the span of a line pair of one of the changes among `ds`.
pub open spec fn span_of_some_change(ds: Seq<DeltaView>, sp: InlineSpan) -> bool {
    exists|k: int, i: int| #[trigger] span_from(ds, sp, k, i)
}

/// Every span is the span of a line pair of one of the changes.
pub open spec fn spans_from_changes(ds: Seq<DeltaView>, ss: Seq<InlineSpan>) -> bool {
    forall|j: int| 0 <= j < ss.len() ==> #[trigger] span_of_some_change(ds, ss[j])
}

proof fn lemma_pair_spans_from(pos: u32, src: Seq<Seq<char>>, tgt: Seq<Seq<char>>, m: nat)
    requires
        m <= src.len(),
        m <= tgt.len(),
    ensures
        forall|j: int|
            0 <= j < pair_spans(pos, src, tgt, m).len() ==> exists|i: int|
                0 <= i < m && (#[trigger] pair_spans(pos, src, tgt, m)[j]).line == sat_add(pos, i as nat)
                    && span_utf16(src[i], tgt[i]) == Some(
                    (pair_spans(pos, src, tgt, m)[j].start_col_utf16, pair_spans(pos, src, tgt, m)[j].end_col_utf16),
                ),
    decreases m,
{
    if m > 0 {
        lemma_pair_spans_from(pos, src, tgt, (m - 1) as nat);
        let prev = pair_spans(pos, src, tgt, (m - 1) as nat);
        let cur = pair_spans(pos, src, tgt, m);
        assert forall|j: int| 0 <= j < cur.len() implies exists|i: int|
            0 <= i < m && (#[trigger] cur[j]).line == sat_add(pos, i as nat) && span_utf16(src[i], tgt[i])
                == Some((cur[j].start_col_utf16, cur[j].end_col_utf16)) by {
            if j < prev.len() {
                assert(cur[j] == prev[j]);
                let i = choose|i: int|
                    0 <= i < m - 1 && (#[trigger] prev[j]).line == sat_add(pos, i as nat) && span_utf16(src[i], tgt[i])
                        == Some((prev[j].start_col_utf16, prev[j].end_col_utf16));
                assert(0 <= i < m);
            } else {
                assert(span_utf16(src[m - 1], tgt[m - 1]) == Some((cur[j].start_col_utf16, cur[j].end_col_utf16)));
                assert(cur[j].line == sat_add(pos, (m - 1) as nat));
            }
        }
    }
}

proof fn lemma_spans_from_grow(ds: Seq<DeltaView>, ds2: Seq<DeltaView>, ss: Seq<InlineSpan>)
    requires
        spans_from_changes(ds, ss),
        ds.len() <= ds2.len(),
        forall|k: int| 0 <= k < ds.len() ==> ds2[k] == ds[k],
    ensures
        spans_from_changes(ds2, ss),
{
    assert forall|j: int| 0 <= j < ss.len() implies #[trigger] span_of_some_change(ds2, ss[j]) by {
        assert(span_of_some_change(ds, ss[j]));
        let (k, i) = choose|k: int, i: int| span_from(ds, ss[j], k, i);
        assert(ds2[k] == ds[k]);
        assert(span_from(ds2, ss[j], k, i));
    }
}

proof fn lemma_spans_from_upto(blocks: Seq<(BlockTag, Seq<char>)>, n: nat)
    ensures
        spans_from_changes(group_run(blocks, n).out, deco_run(blocks, n).spans),
    decreases n,
{
    if n == 0 || n > blocks.len() {
    } else {
        lemma_spans_from_upto(blocks, (n - 1) as nat);
        lemma_states_agree(blocks, (n - 1) as nat);
        let g = group_run(blocks, (n - 1) as nat);
        let d = deco_run(blocks, (n - 1) as nat);
        let b = blocks[n - 1];
        let g2 = group_step(g, b);
        let d2 = deco_step(d, b);
        assert(g2.out.len() >= g.out.len());
        assert(forall|k: int| 0 <= k < g.out.len() ==> g2.out[k] == g.out[k]);
        lemma_spans_from_grow(g.out, g2.out, d.spans);
        if b.0 == BlockTag::Added {
            if let Some((p, s)) = g.pending {
                let lines = crate::text::lines_of(b.1);
                let m = if s.len() <= lines.len() { s.len() } else { lines.len() };
                lemma_pair_spans_from(p, s, lines, m);
                let extra = change_spans(p, s, lines);
                let k = g.out.len() as int;
                assert(g2.out[k].kind == DeltaKind::Change);
                assert forall|j: int| 0 <= j < d2.spans.len() implies #[trigger] span_of_some_change(
                    g2.out,
                    d2.spans[j],
                ) by {
                    if j < d.spans.len() {
                        assert(d2.spans[j] == d.spans[j]);
                        assert(span_of_some_change(g2.out, d.spans[j]));
                    } else {
                        assert(d2.spans[j] == extra[j - d.spans.len()]);
                        let i = choose|i: int|
                            0 <= i < m && (#[trigger] extra[j - d.spans.len()]).line == sat_add(p, i as nat)
                                && span_utf16(s[i], lines[i]) == Some(
                                (extra[j - d.spans.len()].start_col_utf16, extra[j - d.spans.len()].end_col_utf16),
                            );
                        assert(span_from(g2.out, d2.spans[j], k, i));
                    }
                }
            }
        }
        assert(g2 == group_run(blocks, n));
        assert(d2 == deco_run(blocks, n));
    }
}

/// Each inline span of a block sequence's decorations belongs to a change among its deltas: it
/// lies on the line of one of the change's old/new line pairs and gives that pair's changed
/// range.
pub proof fn lemma_spans_within_changes(blocks: Seq<(BlockTag, Seq<char>)>)
    ensures
        spans_from_changes(grouped(blocks), decorated(blocks).inline_spans),
{
    lemma_spans_from_upto(blocks, blocks.len());
    let g = group_run(blocks, blocks.len());
    assert(forall|k: int| 0 <= k < g.out.len() ==> flushed(g)[k] == g.out[k]);
    lemma_spans_from_grow(g.out, flushed(g), decorated(blocks).inline_spans);
}

/// Every span has a nonempty range that ends within the line it lies on, `new` holding the
/// current text's lines.
pub open spec fn spans_fit_lines(new: Seq<Seq<char>>, ss: Seq<InlineSpan>) -> bool {
    forall|j: int|
        0 <= j < ss.len() ==> {
            &&& (#[trigger] ss[j]).line < new.len()
            &&& ss[j].start_col_utf16 < ss[j].end_col_utf16
            &&& ss[j].end_col_utf16 <= clamp_u32(utf16_of(new[ss[j].line as int]).len())
        }
}

/// Where each change's target lines stand at its position in the current lines `new`, every
/// span of the changes is a nonempty range within its line of `new`.
pub proof fn lemma_spans_fit_lines(ds: Seq<DeltaView>, ss: Seq<InlineSpan>, new: Seq<Seq<char>>)
    requires
        spans_from_changes(ds, ss),
        targets_placed(new, ds),
        new.len() <= u32::MAX,
    ensures
        spans_fit_lines(new, ss),
{
    assert forall|j: int| 0 <= j < ss.len() implies {
        &&& (#[trigger] ss[j]).line < new.len()
        &&& ss[j].start_col_utf16 < ss[j].end_col_utf16
        &&& ss[j].end_col_utf16 <= clamp_u32(utf16_of(new[ss[j].line as int]).len())
    } by {
        assert(span_of_some_change(ds, ss[j]));
        let (k, i) = choose|k: int, i: int| span_from(ds, ss[j], k, i);
        let d = ds[k];
        let tp = d.target_position as int;
        assert(tp + d.target_lines.len() <= new.len());
        assert(new.subrange(tp, tp + d.target_lines.len()) == d.target_lines);
        assert(new.subrange(tp, tp + d.target_lines.len())[i] == new[tp + i]);
        assert(ss[j].line == tp + i);
        lemma_span_utf16_bounds(d.source_lines[i], d.target_lines[i]);
    }
}

} // verus!
