//! Grouping of a block sequence into insert, delete and change operations.
use vstd::prelude::*;
use crate::laws::{all_same, lemma_positions_non_decreasing, lemma_unchanged_blocks_yield_nothing, positions_sorted};
use crate::rebuild::{apply_deltas, lemma_deltas_rebuild_text, no_empty_block, sources_match, targets_placed};
use crate::model::{Delta, DeltaKind, DeltaView, delta_views};
use crate::raw::{BlockTag, RawBlock, block_views, line_diff, line_diff_of};
use crate::text::{lines_of, split_lines, string_views};

verus! {

/// `c + n`, clamped to the largest `u32`.
pub open spec fn sat_add(c: u32, n: nat) -> u32 {
    if c + n <= u32::MAX {
        (c + n) as u32
    } else {
        u32::MAX
    }
}

/// The state of the traversal: the current-text line cursor, a removal that waits for a
/// following addition (its position and lines), and the deltas emitted so far.
pub struct GroupState {
    pub cursor: u32,
    pub pending: Option<(u32, Seq<Seq<char>>)>,
    pub out: Seq<DeltaView>,
}

/// The deltas emitted so far, with a waiting removal emitted as a delete.
pub open spec fn flushed(st: GroupState) -> Seq<DeltaView> {
    match st.pending {
        Some((p, s)) => st.out.push(
            DeltaView { kind: DeltaKind::Delete, target_position: p, source_lines: s, target_lines: Seq::empty() },
        ),
        None => st.out,
    }
}

/// The state after one more block.
pub open spec fn group_step(st: GroupState, b: (BlockTag, Seq<char>)) -> GroupState {
    let lines = lines_of(b.1);
    match b.0 {
        BlockTag::Same => GroupState { cursor: sat_add(st.cursor, lines.len()), pending: None, out: flushed(st) },
        BlockTag::Removed => GroupState { cursor: st.cursor, pending: Some((st.cursor, lines)), out: st.out },
        BlockTag::Added => GroupState {
            cursor: sat_add(st.cursor, lines.len()),
            pending: None,
            out: st.out.push(
                match st.pending {
                    Some((p, s)) => DeltaView { kind: DeltaKind::Change, target_position: p, source_lines: s, target_lines: lines },
                    None => DeltaView {
                        kind: DeltaKind::Insert,
                        target_position: st.cursor,
                        source_lines: Seq::empty(),
                        target_lines: lines,
                    },
                },
            ),
        },
    }
}

/// The state after the first `n` blocks.
pub open spec fn group_run(blocks: Seq<(BlockTag, Seq<char>)>, n: nat) -> GroupState
    decreases n,
{
    if n == 0 || n > blocks.len() {
        GroupState { cursor: 0, pending: None, out: Seq::empty() }
    } else {
        group_step(group_run(blocks, (n - 1) as nat), blocks[n - 1])
    }
}

/// The deltas of a whole block sequence.
pub open spec fn grouped(blocks: Seq<(BlockTag, Seq<char>)>) -> Seq<DeltaView> {
    flushed(group_run(blocks, blocks.len()))
}

/// An empty list of strings, or of deltas, has an empty view.
proof fn lemma_empty_views()
    ensures
        string_views(Seq::<String>::empty()) == Seq::<Seq<char>>::empty(),
        delta_views(Seq::<Delta>::empty()) == Seq::<DeltaView>::empty(),
{
    assert(string_views(Seq::<String>::empty()) =~= Seq::<Seq<char>>::empty());
    assert(delta_views(Seq::<Delta>::empty()) =~= Seq::<DeltaView>::empty());
}

/// `c + n`, clamped to the largest `u32`.
pub fn saturating_add_len(c: u32, n: usize) -> (r: u32)
    ensures
        r == sat_add(c, n as nat),
{
    if n as u64 <= (u32::MAX - c) as u64 {
        c + n as u32
    } else {
        u32::MAX
    }
}

/// Groups blocks into deltas: a removal followed by an addition is one change.
pub fn group_deltas(blocks: &Vec<RawBlock>) -> (r: Vec<Delta>)
    ensures
        delta_views(r@) == grouped(block_views(blocks@)),
{
    let ghost bv = block_views(blocks@);
    let mut out: Vec<Delta> = Vec::new();
    let mut cursor: u32 = 0;
    let mut pending: Option<(u32, Vec<String>)> = None;
    let mut k: usize = 0;
    proof {
        lemma_empty_views();
    }
    while k < blocks.len()
        invariant
            bv == block_views(blocks@),
            k <= blocks.len(),
            group_run(bv, k as nat) == (GroupState {
                cursor,
                pending: match pending {
                    Some((p, s)) => Some((p, string_views(s@))),
                    None => None,
                },
                out: delta_views(out@),
            }),
        decreases blocks.len() - k,
    {
        let block = &blocks[k];
        let lines = split_lines(block.text.as_str());
        let ghost st = group_run(bv, k as nat);
        let ghost out0 = out@;
        proof {
            assert(bv[k as int] == block@);
        }
        match block.tag {
            BlockTag::Same => {
                if let Some((pos, src)) = pending {
                    let d = Delta { kind: DeltaKind::Delete, target_position: pos, source_lines: src, target_lines: vec![] };
                    proof {
                        assert(d.target_lines@ =~= Seq::<String>::empty());
                        assert(d@.target_lines =~= Seq::<Seq<char>>::empty());
                    }
                    out.push(d);
                    proof {
                        assert(delta_views(out@) =~= delta_views(out0).push(d@));
                    }
                }
                pending = None;
                cursor = saturating_add_len(cursor, lines.len());
            },
            BlockTag::Removed => {
                pending = Some((cursor, lines));
            },
            BlockTag::Added => {
                let n = lines.len();
                if let Some((pos, src)) = pending {
                    let d = Delta { kind: DeltaKind::Change, target_position: pos, source_lines: src, target_lines: lines };
                    out.push(d);
                    proof {
                        assert(delta_views(out@) =~= delta_views(out0).push(d@));
                    }
                } else {
                    let d = Delta { kind: DeltaKind::Insert, target_position: cursor, source_lines: vec![], target_lines: lines };
                    proof {
                        assert(d.source_lines@ =~= Seq::<String>::empty());
                        assert(d@.source_lines =~= Seq::<Seq<char>>::empty());
                    }
                    out.push(d);
                    proof {
                        assert(delta_views(out@) =~= delta_views(out0).push(d@));
                    }
                }
                pending = None;
                cursor = saturating_add_len(cursor, n);
            },
        }
        proof {
            assert(delta_views(out@) =~= group_step(st, bv[k as int]).out);
        }
        k = k + 1;
    }
    if let Some((pos, src)) = pending {
        out.push(Delta { kind: DeltaKind::Delete, target_position: pos, source_lines: src, target_lines: vec![] });
    }
    proof {
        assert(delta_views(out@) =~= grouped(bv));
    }
    out
}

/// Computes the grouped line deltas that turn `previous` into `current`.
pub fn compute_deltas(previous: String, current: String) -> (r: Vec<Delta>)
    ensures
        delta_views(r@) == grouped(line_diff_of(previous@, current@)),
        previous@ == current@ ==> r@.len() == 0,
        positions_sorted(delta_views(r@)),
        no_empty_block(line_diff_of(previous@, current@)) && lines_of(current@).len() <= u32::MAX ==> apply_deltas(
            lines_of(previous@),
            delta_views(r@),
        ) == lines_of(current@) && sources_match(lines_of(previous@), delta_views(r@)) && targets_placed(
            lines_of(current@),
            delta_views(r@),
        ),
{
    let blocks = line_diff(previous.as_str(), current.as_str());
    proof {
        if previous@ == current@ {
            assert(all_same(block_views(blocks@)));
            lemma_unchanged_blocks_yield_nothing(block_views(blocks@));
        }
    }
    let r = group_deltas(&blocks);
    proof {
        lemma_positions_non_decreasing(block_views(blocks@));
        if no_empty_block(block_views(blocks@)) && lines_of(current@).len() <= u32::MAX {
            lemma_deltas_rebuild_text(block_views(blocks@), previous@, current@);
        }
        assert(delta_views(r@).len() == r@.len());
    }
    r
}

} // verus!
