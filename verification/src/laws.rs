//! The library's laws: properties that hold of every assembled tree, stated
//! over the model and proved once for all inputs.

use crate::tree::{child_index, tree_model, MerkleTree};
use vstd::arithmetic::div_mod::lemma_fundamental_div_mod;
use vstd::prelude::*;

verus! {

/// Determinism across concurrency levels: `MerkleTree::new` ensures that the
/// assembled stack of levels equals `tree_model(blocks)` whatever the worker
/// count, and the model is a function of the blocks alone — so any two trees
/// built from the same blocks are equal, root included.
pub proof fn lemma_assemble_deterministic(t1: MerkleTree, t2: MerkleTree, blocks: Seq<Seq<u8>>)
    ensures
        t1@ == tree_model(blocks) && t2@ == tree_model(blocks) ==> t1@ == t2@ && t1.spec_root()
            == t2.spec_root(),
{
}

/// Level-size invariant: in every assembled tree, every non-root level has
/// an even slot count, and the root level has exactly one slot.
pub proof fn lemma_level_sizes(t: MerkleTree)
    requires
        t.wf(),
    ensures
        forall|l: int| 0 <= l < t@.len() - 1 ==> (#[trigger] t@[l]).len() % 2 == 0,
        t@[t@.len() - 1].len() == 1,
{
}

/// Parent/child inverse law: for every valid slot `(level, index)` with
/// `level >= 1`, the two children sit at `child_index` and the slot after it
/// in the level below — both real slots — and the parent of either child,
/// slot `child / 2` of `level`, holds the very hash of `(level, index)`.
pub proof fn lemma_parent_child_inverse(t: MerkleTree, level: int, index: int)
    requires
        t.wf(),
        1 <= level < t@.len(),
        0 <= index < t@[level].len(),
    ensures
        2 * index <= t@[level - 1].len(),
        ({
            let c = t@[level - 1].len() as int;
            let i = child_index(c, index);
            &&& 0 <= i && i + 1 < c
            &&& 0 <= i / 2 < t@[level].len()
            &&& (i + 1) / 2 == i / 2
            &&& t@[level][i / 2] == t@[level][index]
        }),
{
    let c = t@[level - 1].len() as int;
    let count = t@[level].len() as int;
    assert(c % 2 == 0 && c >= 2);
    assert(t@[(level - 1) + 1].len() == crate::level::next_count(t@[level - 1].len() as int));
    assert(count == crate::level::next_count(c));
    lemma_fundamental_div_mod(c, 2);
    if c == 2 {
        assert(index == 0);
        assert(child_index(c, index) == 0);
    } else if 2 * index == c {
        assert((c / 2) % 2 == 1 && count == c / 2 + 1) by {
            assert(index == c / 2);
            assert(index < count);
        }
        let i = c - 2;
        assert(i / 2 == c / 2 - 1);
        assert((i + 1) / 2 == c / 2 - 1);
        assert(t@[level][count - 1] == t@[level][count - 2]);
        assert(t@[level][c / 2] == t@[level][c / 2 - 1]);
    } else {
        assert(2 * index < c) by {
            assert(index < count);
            assert(count <= c / 2 + 1);
        }
        let i = 2 * index;
        assert(i / 2 == index);
        assert((i + 1) / 2 == index);
        assert(i + 1 < c);
    }
}

/// Odd-padding duplication: the leaf level built from an odd number `n` of
/// blocks holds `n + 1` slots, and the extra slot is a copy of the hash of
/// the last block, not a re-hash.
pub proof fn lemma_odd_padding(blocks: Seq<Seq<u8>>)
    requires
        blocks.len() % 2 == 1,
    ensures
        tree_model(blocks)[0].len() == blocks.len() + 1,
        tree_model(blocks)[0][blocks.len() as int] == tree_model(blocks)[0][blocks.len() - 1],
{
    let leaf = crate::level::leaf_slots(blocks);
    assert(tree_model(blocks)[0] == leaf);
}

} // verus!
