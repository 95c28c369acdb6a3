//! Applying the deltas of a block sequence to its old lines gives its new lines.
use vstd::prelude::*;
use crate::grouping::{GroupState, flushed, group_run, group_step, grouped};
use crate::model::{DeltaKind, DeltaView};
use crate::raw::{BlockTag, pieces_upto, removals_apart};
use crate::text::lines_of;

verus! {

/// The lines of the first `n` blocks that belong to the previous text (unchanged or removed).
pub open spec fn old_lines_upto(blocks: Seq<(BlockTag, Seq<char>)>, n: nat) -> Seq<Seq<char>>
    decreases n,
{
    if n == 0 || n > blocks.len() {
        Seq::empty()
    } else {
        let prev = old_lines_upto(blocks, (n - 1) as nat);
        if blocks[n - 1].0 == BlockTag::Added {
            prev
        } else {
            prev + lines_of(blocks[n - 1].1)
        }
    }
}

/// The lines of the first `n` blocks that belong to the current text (unchanged or added).
pub open spec fn new_lines_upto(blocks: Seq<(BlockTag, Seq<char>)>, n: nat) -> Seq<Seq<char>>
    decreases n,
{
    if n == 0 || n > blocks.len() {
        Seq::empty()
    } else {
        let prev = new_lines_upto(blocks, (n - 1) as nat);
        if blocks[n - 1].0 == BlockTag::Removed {
            prev
        } else {
            prev + lines_of(blocks[n - 1].1)
        }
    }
}

/// The lines of the previous text that a block sequence describes.
pub open spec fn old_lines(blocks: Seq<(BlockTag, Seq<char>)>) -> Seq<Seq<char>> {
    old_lines_upto(blocks, blocks.len())
}

/// The lines of the current text that a block sequence describes.
pub open spec fn new_lines(blocks: Seq<(BlockTag, Seq<char>)>) -> Seq<Seq<char>> {
    new_lines_upto(blocks, blocks.len())
}

/// Applies deltas in order to `old`: before each, the old lines up to its target position are
/// copied; then its target lines are written and its source lines are skipped. Yields the lines
/// written and how many old lines were used.
pub open spec fn apply_run(old: Seq<Seq<char>>, ds: Seq<DeltaView>) -> (Seq<Seq<char>>, int)
    decreases ds.len(),
{
    if ds.len() == 0 {
        (Seq::empty(), 0)
    } else {
        let (x, at) = apply_run(old, ds.drop_last());
        let d = ds.last();
        let copied = d.target_position - x.len();
        (x + old.subrange(at, at + copied) + d.target_lines, at + copied + d.source_lines.len())
    }
}

/// Each delta's source lines are the old lines that applying it skips.
pub open spec fn sources_match(old: Seq<Seq<char>>, ds: Seq<DeltaView>) -> bool
    decreases ds.len(),
{
    if ds.len() == 0 {
        true
    } else {
        let (x, at) = apply_run(old, ds.drop_last());
        let d = ds.last();
        let start = at + (d.target_position - x.len());
        &&& sources_match(old, ds.drop_last())
        &&& old.subrange(start, start + d.source_lines.len()) == d.source_lines
    }
}

/// The lines that applying `ds` to `old` yields, the old lines after the last delta included.
pub open spec fn apply_deltas(old: Seq<Seq<char>>, ds: Seq<DeltaView>) -> Seq<Seq<char>> {
    let (x, at) = apply_run(old, ds);
    x + old.subrange(at, old.len() as int)
}

proof fn lemma_old_prefix(blocks: Seq<(BlockTag, Seq<char>)>, n: nat, m: nat)
    requires
        n <= m <= blocks.len(),
    ensures
        old_lines_upto(blocks, n).len() <= old_lines_upto(blocks, m).len(),
        old_lines_upto(blocks, m).subrange(0, old_lines_upto(blocks, n).len() as int) == old_lines_upto(
            blocks,
            n,
        ),
    decreases m - n,
{
    if n < m {
        lemma_old_prefix(blocks, n, (m - 1) as nat);
        let a = old_lines_upto(blocks, n);
        let b = old_lines_upto(blocks, (m - 1) as nat);
        let c = old_lines_upto(blocks, m);
        assert(c.subrange(0, b.len() as int) =~= b);
        assert(c.subrange(0, a.len() as int) =~= b.subrange(0, a.len() as int));
    } else {
        assert(old_lines_upto(blocks, m).subrange(0, old_lines_upto(blocks, n).len() as int) =~= old_lines_upto(blocks, n));
    }
}

proof fn lemma_new_grows(blocks: Seq<(BlockTag, Seq<char>)>, n: nat, m: nat)
    requires
        n <= m <= blocks.len(),
    ensures
        new_lines_upto(blocks, n).len() <= new_lines_upto(blocks, m).len(),
    decreases m - n,
{
    if n < m {
        lemma_new_grows(blocks, n, (m - 1) as nat);
    }
}

/// What holds of the state after the blocks whose old lines are `on` and new lines are `nn`:
/// the deltas emitted so far write a prefix of `nn` and use a prefix of `on`, and the old lines
/// left over, but for a waiting removal (the last old lines), are copied unchanged.
spec fn rebuilt(st: GroupState, big: Seq<Seq<char>>, on: Seq<Seq<char>>, nn: Seq<Seq<char>>) -> bool {
    let (x, at) = apply_run(big, st.out);
    let r: int = match st.pending {
        Some((_, s)) => s.len() as int,
        None => 0,
    };
    &&& sources_match(big, st.out)
    &&& st.cursor == nn.len()
    &&& st.pending matches Some((p, _)) ==> p == st.cursor
    &&& 0 <= at <= on.len() - r
    &&& on.len() <= big.len()
    &&& x.len() <= nn.len()
    &&& at + (nn.len() - x.len()) + r == on.len()
    &&& x + big.subrange(at, on.len() - r) == nn
    &&& st.pending matches Some((_, s)) ==> big.subrange(on.len() - r, on.len() as int) == s
}

proof fn lemma_step_removed(st: GroupState, big: Seq<Seq<char>>, on0: Seq<Seq<char>>, nn0: Seq<Seq<char>>, text: Seq<char>)
    requires
        rebuilt(st, big, on0, nn0),
        st.pending is None,
        on0.len() + lines_of(text).len() <= big.len(),
        big.subrange(on0.len() as int, on0.len() + lines_of(text).len() as int) == lines_of(text),
    ensures
        rebuilt(group_step(st, (BlockTag::Removed, text)), big, on0 + lines_of(text), nn0),
{
}

proof fn lemma_step_same(st: GroupState, big: Seq<Seq<char>>, on0: Seq<Seq<char>>, nn0: Seq<Seq<char>>, text: Seq<char>)
    requires
        rebuilt(st, big, on0, nn0),
        on0.len() + lines_of(text).len() <= big.len(),
        big.subrange(on0.len() as int, on0.len() + lines_of(text).len() as int) == lines_of(text),
        nn0.len() + lines_of(text).len() <= u32::MAX,
    ensures
        rebuilt(group_step(st, (BlockTag::Same, text)), big, on0 + lines_of(text), nn0 + lines_of(text)),
{
    let lines = lines_of(text);
    let on = on0 + lines;
    let nn = nn0 + lines;
    let st2 = group_step(st, (BlockTag::Same, text));
    let (x, at) = apply_run(big, st.out);
    match st.pending {
        Some((p, s)) => {
            let copied = nn0.len() - x.len();
            assert(big.subrange(at, at + copied) =~= big.subrange(at, on0.len() - s.len()));
            assert(st2.out.drop_last() =~= st.out);
            assert(sources_match(big, st2.out));
            let (x2, at2) = apply_run(big, st2.out);
            assert(x2 =~= nn0);
            assert(at2 == on0.len());
            assert(x2 + big.subrange(at2, on.len() as int) =~= nn);
        },
        None => {
            assert(big.subrange(at, on.len() as int) =~= big.subrange(at, on0.len() as int) + lines);
            assert(x + big.subrange(at, on.len() as int) =~= nn);
        },
    }
}

proof fn lemma_step_added(st: GroupState, big: Seq<Seq<char>>, on0: Seq<Seq<char>>, nn0: Seq<Seq<char>>, text: Seq<char>)
    requires
        rebuilt(st, big, on0, nn0),
        nn0.len() + lines_of(text).len() <= u32::MAX,
    ensures
        rebuilt(group_step(st, (BlockTag::Added, text)), big, on0, nn0 + lines_of(text)),
{
    let lines = lines_of(text);
    let nn = nn0 + lines;
    let st2 = group_step(st, (BlockTag::Added, text));
    let (x, at) = apply_run(big, st.out);
    let r: int = match st.pending {
        Some((_, s)) => s.len() as int,
        None => 0,
    };
    let copied = nn0.len() - x.len();
    assert(big.subrange(at, at + copied) =~= big.subrange(at, on0.len() - r));
    assert(st2.out.drop_last() =~= st.out);
    if st.pending is None {
        assert(big.subrange(at + copied, at + copied) =~= Seq::<Seq<char>>::empty());
    }
    assert(sources_match(big, st2.out));
    let (x2, at2) = apply_run(big, st2.out);
    assert(x2 =~= nn0 + lines);
    assert(at2 == on0.len());
    assert(big.subrange(at2, on0.len() as int) =~= Seq::<Seq<char>>::empty());
    assert(x2 + big.subrange(at2, on0.len() as int) =~= nn);
}

proof fn lemma_rebuilt_upto(blocks: Seq<(BlockTag, Seq<char>)>, n: nat)
    requires
        n <= blocks.len(),
        removals_apart(blocks),
        new_lines(blocks).len() <= u32::MAX,
    ensures
        rebuilt(group_run(blocks, n), old_lines(blocks), old_lines_upto(blocks, n), new_lines_upto(blocks, n)),
        group_run(blocks, n).pending is Some ==> n > 0 && blocks[n - 1].0 == BlockTag::Removed,
    decreases n,
{
    let big = old_lines(blocks);
    lemma_old_prefix(blocks, n, blocks.len());
    if n == 0 {
        assert(big.subrange(0, 0) =~= Seq::<Seq<char>>::empty());
        assert(Seq::<Seq<char>>::empty() + big.subrange(0, 0) =~= Seq::<Seq<char>>::empty());
    } else {
        lemma_rebuilt_upto(blocks, (n - 1) as nat);
        lemma_new_grows(blocks, n, blocks.len());
        let st = group_run(blocks, (n - 1) as nat);
        let b = blocks[n - 1];
        let lines = lines_of(b.1);
        let on0 = old_lines_upto(blocks, (n - 1) as nat);
        let on = old_lines_upto(blocks, n);
        let nn0 = new_lines_upto(blocks, (n - 1) as nat);
        assert(big.subrange(0, on.len() as int) == on);
        if b.0 != BlockTag::Added {
            assert(on =~= on0 + lines);
            assert(big.subrange(on0.len() as int, on.len() as int) =~= lines) by {
                assert(big.subrange(on0.len() as int, on.len() as int) =~= on.subrange(
                    on0.len() as int,
                    on.len() as int,
                ));
            }
        }
        if b.0 == BlockTag::Removed {
            if n >= 2 {
                assert(blocks[n - 2].0 != BlockTag::Removed);
            }
            lemma_step_removed(st, big, on0, nn0, b.1);
        } else if b.0 == BlockTag::Same {
            lemma_step_same(st, big, on0, nn0, b.1);
        } else {
            lemma_step_added(st, big, on0, nn0, b.1);
        }
    }
}

/// Applying the deltas of a block sequence, in order, to the lines of the previous text gives
/// the lines of the current text, each delta replacing exactly its source lines, as long as no
/// two removals are adjacent and the current text's line count fits the positions.
pub proof fn lemma_deltas_rebuild_current(blocks: Seq<(BlockTag, Seq<char>)>)
    requires
        removals_apart(blocks),
        new_lines(blocks).len() <= u32::MAX,
    ensures
        apply_deltas(old_lines(blocks), grouped(blocks)) == new_lines(blocks),
        sources_match(old_lines(blocks), grouped(blocks)),
{
    let n = blocks.len();
    lemma_rebuilt_upto(blocks, n);
    lemma_old_prefix(blocks, n, n);
    let st = group_run(blocks, n);
    let big = old_lines(blocks);
    let (x, at) = apply_run(big, st.out);
    match st.pending {
        Some((p, s)) => {
            let d = DeltaView { kind: DeltaKind::Delete, target_position: p, source_lines: s, target_lines: Seq::empty() };
            assert(flushed(st).drop_last() =~= st.out);
            let copied = p - x.len();
            assert(big.subrange(at, at + copied) =~= big.subrange(at, big.len() - s.len()));
            assert(sources_match(big, flushed(st)));
            let (x2, at2) = apply_run(big, flushed(st));
            assert(x2 =~= new_lines(blocks));
            assert(at2 == big.len());
            assert(big.subrange(at2, big.len() as int) =~= Seq::<Seq<char>>::empty());
            assert(apply_deltas(big, flushed(st)) =~= new_lines(blocks));
        },
        None => {},
    }
}

/// Each delta's target lines stand in `new` at its target position, and the target ranges of
/// the deltas follow one another without overlap.
pub open spec fn targets_placed(new: Seq<Seq<char>>, ds: Seq<DeltaView>) -> bool {
    &&& forall|k: int|
        0 <= k < ds.len() ==> {
            &&& (#[trigger] ds[k]).target_position + ds[k].target_lines.len() <= new.len()
            &&& new.subrange(
                ds[k].target_position as int,
                ds[k].target_position + ds[k].target_lines.len(),
            ) == ds[k].target_lines
        }
    &&& forall|i: int, j: int|
        0 <= i < j < ds.len() ==> (#[trigger] ds[i]).target_position + ds[i].target_lines.len()
            <= (#[trigger] ds[j]).target_position
}

proof fn lemma_placed_extend(x: Seq<Seq<char>>, ds: Seq<DeltaView>, y: Seq<Seq<char>>)
    requires
        targets_placed(x, ds),
        x.len() <= y.len(),
        y.subrange(0, x.len() as int) == x,
    ensures
        targets_placed(y, ds),
{
    assert forall|k: int| 0 <= k < ds.len() implies y.subrange(
        (#[trigger] ds[k]).target_position as int,
        ds[k].target_position + ds[k].target_lines.len(),
    ) == ds[k].target_lines by {
        let lo = ds[k].target_position as int;
        let hi = ds[k].target_position + ds[k].target_lines.len();
        assert(y.subrange(lo, hi) =~= x.subrange(lo, hi)) by {
            assert forall|i: int| 0 <= i < hi - lo implies y.subrange(lo, hi)[i] == x.subrange(lo, hi)[i] by {
                assert(y.subrange(0, x.len() as int)[lo + i] == y[lo + i]);
            }
        }
    }
}

proof fn lemma_placed_push(big: Seq<Seq<char>>, ds: Seq<DeltaView>, d: DeltaView)
    requires
        targets_placed(apply_run(big, ds).0, ds),
        apply_run(big, ds).0.len() <= d.target_position,
        0 <= apply_run(big, ds).1,
        apply_run(big, ds).1 + (d.target_position - apply_run(big, ds).0.len()) <= big.len(),
    ensures
        targets_placed(apply_run(big, ds.push(d)).0, ds.push(d)),
{
    let (x, at) = apply_run(big, ds);
    let e = ds.push(d);
    assert(e.drop_last() =~= ds);
    let x2 = apply_run(big, e).0;
    let copied = d.target_position - x.len();
    assert(x2 == x + big.subrange(at, at + copied) + d.target_lines);
    assert(x2.len() == d.target_position + d.target_lines.len());
    assert(x2.subrange(0, x.len() as int) =~= x);
    lemma_placed_extend(x, ds, x2);
    assert(x2.subrange(d.target_position as int, x2.len() as int) =~= d.target_lines);
    assert forall|i: int, j: int| 0 <= i < j < e.len() implies (#[trigger] e[i]).target_position
        + e[i].target_lines.len() <= (#[trigger] e[j]).target_position by {
        assert(e[i] == ds[i]);
        if j < ds.len() {
            assert(e[j] == ds[j]);
        }
    }
    assert forall|k: int| 0 <= k < e.len() implies {
        &&& (#[trigger] e[k]).target_position + e[k].target_lines.len() <= x2.len()
        &&& x2.subrange(e[k].target_position as int, e[k].target_position + e[k].target_lines.len())
            == e[k].target_lines
    } by {
        if k < ds.len() {
            assert(e[k] == ds[k]);
        }
    }
}

proof fn lemma_placed_upto(blocks: Seq<(BlockTag, Seq<char>)>, n: nat)
    requires
        n <= blocks.len(),
        removals_apart(blocks),
        new_lines(blocks).len() <= u32::MAX,
    ensures
        targets_placed(apply_run(old_lines(blocks), group_run(blocks, n).out).0, group_run(blocks, n).out),
    decreases n,
{
    let big = old_lines(blocks);
    if n == 0 {
    } else {
        lemma_placed_upto(blocks, (n - 1) as nat);
        lemma_rebuilt_upto(blocks, (n - 1) as nat);
        let st = group_run(blocks, (n - 1) as nat);
        let st2 = group_run(blocks, n);
        assert(st2 == group_step(st, blocks[n - 1]));
        if st2.out != st.out {
            let d = st2.out.last();
            assert(st2.out =~= st.out.push(d));
            assert(d.target_position == st.cursor);
            lemma_placed_push(big, st.out, d);
        }
    }
}

/// The target lines of each delta of a block sequence stand at its target position in the
/// lines of the current text, and the target ranges follow one another without overlap, as
/// long as no two removals are adjacent and the current text's line count fits the positions.
pub proof fn lemma_targets_in_place(blocks: Seq<(BlockTag, Seq<char>)>)
    requires
        removals_apart(blocks),
        new_lines(blocks).len() <= u32::MAX,
    ensures
        targets_placed(new_lines(blocks), grouped(blocks)),
{
    let n = blocks.len();
    let big = old_lines(blocks);
    lemma_placed_upto(blocks, n);
    lemma_rebuilt_upto(blocks, n);
    lemma_old_prefix(blocks, n, n);
    lemma_deltas_rebuild_current(blocks);
    let st = group_run(blocks, n);
    let ds = grouped(blocks);
    if ds != st.out {
        let d = ds.last();
        assert(ds =~= st.out.push(d));
        lemma_placed_push(big, st.out, d);
    }
    let (x, at) = apply_run(big, ds);
    let y = new_lines(blocks);
    assert(y == x + big.subrange(at, big.len() as int));
    assert(y.subrange(0, x.len() as int) =~= x);
    lemma_placed_extend(x, ds, y);
}

/// No block has an empty text.
pub open spec fn no_empty_block(blocks: Seq<(BlockTag, Seq<char>)>) -> bool {
    forall|k: int| 0 <= k < blocks.len() ==> (#[trigger] blocks[k]).1.len() > 0
}

proof fn lemma_lines_are_pieces(blocks: Seq<(BlockTag, Seq<char>)>, skip: BlockTag, n: nat)
    requires
        no_empty_block(blocks),
        skip == BlockTag::Added || skip == BlockTag::Removed,
    ensures
        skip == BlockTag::Added ==> old_lines_upto(blocks, n) == pieces_upto(blocks, skip, n),
        skip == BlockTag::Removed ==> new_lines_upto(blocks, n) == pieces_upto(blocks, skip, n),
    decreases n,
{
    if n > 0 && n <= blocks.len() {
        assert(blocks[n - 1].1.len() > 0);
        lemma_lines_are_pieces(blocks, skip, (n - 1) as nat);
    }
}

/// For two texts whose line comparison is `blocks` (unchanged and removed blocks giving the
/// previous text's lines, unchanged and added blocks the current text's, no two removals
/// adjacent), applying the deltas in order to the lines of `previous` gives the lines of
/// `current`, each delta replacing exactly its source lines and its target lines standing at its
/// target position in `current`, without overlap. This holds as long as no block is
/// empty (an empty block counts no line, though it stands for one empty line) and the current
/// text's line count fits the positions.
pub proof fn lemma_deltas_rebuild_text(blocks: Seq<(BlockTag, Seq<char>)>, previous: Seq<char>, current: Seq<char>)
    requires
        pieces_upto(blocks, BlockTag::Added, blocks.len()) == lines_of(previous),
        pieces_upto(blocks, BlockTag::Removed, blocks.len()) == lines_of(current),
        removals_apart(blocks),
        no_empty_block(blocks),
        lines_of(current).len() <= u32::MAX,
    ensures
        apply_deltas(lines_of(previous), grouped(blocks)) == lines_of(current),
        sources_match(lines_of(previous), grouped(blocks)),
        targets_placed(lines_of(current), grouped(blocks)),
{
    lemma_lines_are_pieces(blocks, BlockTag::Added, blocks.len());
    lemma_lines_are_pieces(blocks, BlockTag::Removed, blocks.len());
    lemma_deltas_rebuild_current(blocks);
    lemma_targets_in_place(blocks);
}

} // verus!
