//! The line-level comparison of two texts, as a sequence of tagged blocks.
use vstd::prelude::*;
use crate::text::{lines_of, newline_pieces};

verus! {

/// Whether a block of lines is in both texts, only in the previous one, or only in the current one.
#[derive(Clone, Copy, Debug, PartialEq, Eq, Structural)]
pub enum BlockTag {
    Same,
    Removed,
    Added,
}

/// One block of a line comparison; its text joins the block's lines with `'\n'`.
#[derive(Clone, Debug)]
pub struct RawBlock {
    pub tag: BlockTag,
    pub text: String,
}

impl View for RawBlock {
    type V = (BlockTag, Seq<char>);

    open spec fn view(&self) -> (BlockTag, Seq<char>) {
        (self.tag, self.text@)
    }
}

/// The blocks of a sequence, each seen through its view.
pub open spec fn block_views(v: Seq<RawBlock>) -> Seq<(BlockTag, Seq<char>)> {
    v.map_values(|b: RawBlock| b@)
}

/// No removal block is followed directly by another.
pub open spec fn removals_apart(blocks: Seq<(BlockTag, Seq<char>)>) -> bool {
    forall|k: int|
        0 <= k < blocks.len() - 1 && (#[trigger] blocks[k]).0 == BlockTag::Removed ==> blocks[k + 1].0
            != BlockTag::Removed
}

/// The `'\n'`-separated pieces of the first `n` blocks, leaving out blocks tagged `skip`.
pub open spec fn pieces_upto(blocks: Seq<(BlockTag, Seq<char>)>, skip: BlockTag, n: nat) -> Seq<Seq<char>>
    decreases n,
{
    if n == 0 || n > blocks.len() {
        Seq::empty()
    } else {
        let prev = pieces_upto(blocks, skip, (n - 1) as nat);
        if blocks[n - 1].0 == skip {
            prev
        } else {
            prev + newline_pieces(blocks[n - 1].1)
        }
    }
}

/// The blocks that the line comparison of `previous` with `current` yields.
pub uninterp spec fn line_diff_of(previous: Seq<char>, current: Seq<char>) -> Seq<(BlockTag, Seq<char>)>;

/// Relies on `difference::Changeset::new` with `"\n"` as separator: a longest common
/// subsequence of the two line lists, merged into blocks: every line of the previous text
/// goes, in order, into a `Same` or a `Rem` block, every line of the current text into a `Same`
/// or an `Add` block, and a block joins its lines with `'\n'`. On equal texts every line is common,
/// so every block is `Same`. After a `Rem` block the old lines stand at the next common line,
/// so only a `Same` block can be followed by another `Rem` block.
#[verifier::external_body]
pub(crate) fn line_diff(previous: &str, current: &str) -> (r: Vec<RawBlock>)
    ensures
        block_views(r@) == line_diff_of(previous@, current@),
        pieces_upto(block_views(r@), BlockTag::Added, r@.len()) == lines_of(previous@),
        pieces_upto(block_views(r@), BlockTag::Removed, r@.len()) == lines_of(current@),
        removals_apart(block_views(r@)),
        previous@ == current@ ==> forall|k: int| 0 <= k < r@.len() ==> r@[k].tag == BlockTag::Same,
{
    difference::Changeset::new(previous, current, "\n").diffs.into_iter().map(|d| match d {
        difference::Difference::Same(text) => RawBlock { tag: BlockTag::Same, text },
        difference::Difference::Rem(text) => RawBlock { tag: BlockTag::Removed, text },
        difference::Difference::Add(text) => RawBlock { tag: BlockTag::Added, text },
    }).collect()
}

} // verus!
