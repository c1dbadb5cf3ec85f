//! The tree assembler and the navigator: assembling the stack of levels and
//! the read-only queries over it.

use crate::hash::MIN_BLOCK_LEN;
use crate::level::{build_leaf_level, build_next_level, leaf_slots, lemma_next_count_shrinks,
    lemma_next_slots_count, lemma_next_slots_dup, next_count, next_slots, slots_of};
use vstd::arithmetic::div_mod::lemma_fundamental_div_mod;
use vstd::prelude::*;
use vstd::slice::slice_subrange;

verus! {

/// The error kinds of tree construction and navigation. Every error is a
/// deterministic function of the inputs.
#[derive(Clone, Copy, Debug, PartialEq, Eq, Structural)]
pub enum MerkleError {
    /// Constructing a tree from zero blocks.
    EmptyInput,
    /// Constructing a tree over a block shorter than `MIN_BLOCK_LEN` bytes.
    UndersizedBlock,
    /// A navigation query with an out-of-range or structurally invalid
    /// level or slot index.
    IndexOutOfRange,
}

/// The stack of levels grown from the slots `cur` by repeated halving:
/// `cur` first, ending with the first level of a single slot.
pub open spec fn tree_levels(cur: Seq<Seq<u8>>) -> Seq<Seq<Seq<u8>>>
    decreases cur.len(),
{
    if cur.len() <= 1 {
        seq![cur]
    } else {
        seq![cur] + tree_levels(next_slots(cur))
    }
}

/// The whole tree determined by the input blocks alone: the leaf level's
/// slots and every level halved from them, up to the root.
pub open spec fn tree_model(blocks: Seq<Seq<u8>>) -> Seq<Seq<Seq<u8>>> {
    tree_levels(leaf_slots(blocks))
}

/// The slot views of a stack of flat level buffers.
pub open spec fn levels_view(tree: Seq<Vec<u8>>) -> Seq<Seq<Seq<u8>>> {
    Seq::new(tree.len(), |l: int| slots_of(tree[l]@))
}

/// A well-formed stack of levels: at least the leaf level and the root
/// level; every non-root level holds an even count of at least two slots;
/// the root level holds exactly one; each level's slot count is `next_count`
/// of the level below; every slot is one 32-byte hash value; and a level
/// above an odd pair count ends in two equal slots, the odd-padding
/// duplicate.
pub open spec fn levels_wf(lv: Seq<Seq<Seq<u8>>>) -> bool {
    &&& lv.len() >= 2
    &&& lv[lv.len() - 1].len() == 1
    &&& (forall|l: int|
        0 <= l < lv.len() - 1 ==> (#[trigger] lv[l]).len() >= 2 && lv[l].len() % 2 == 0)
    &&& (forall|l: int|
        0 <= l < lv.len() - 1 ==> (#[trigger] lv[l + 1]).len() == next_count(lv[l].len() as int))
    &&& (forall|l: int, i: int|
        0 <= l < lv.len() && 0 <= i < lv[l].len() ==> (#[trigger] lv[l][i]).len() == 32)
    &&& (forall|l: int|
        1 <= l < lv.len() && lv[l - 1].len() > 2 && ((lv[l - 1].len() / 2) as int) % 2 == 1
            ==> (#[trigger] lv[l])[lv[l].len() - 1] == lv[l][lv[l].len() - 2])
}

/// A stack of levels is well-formed once every level is linked to the one
/// below it by `next_slots`, every non-root level has an even slot count,
/// every slot is 32 bytes, and the last level has a single slot.
proof fn lemma_levels_wf(lv: Seq<Seq<Seq<u8>>>)
    requires
        lv.len() >= 2,
        lv[lv.len() - 1].len() == 1,
        forall|l: int| 1 <= l < lv.len() ==> #[trigger] lv[l] == next_slots(lv[l - 1]),
        forall|l: int|
            0 <= l < lv.len() - 1 ==> (#[trigger] lv[l]).len() >= 2 && lv[l].len() % 2 == 0,
        forall|l: int, i: int|
            0 <= l < lv.len() && 0 <= i < lv[l].len() ==> (#[trigger] lv[l][i]).len() == 32,
    ensures
        levels_wf(lv),
{
    assert forall|l: int|
        0 <= l < lv.len() - 1 implies (#[trigger] lv[l + 1]).len() == next_count(
        lv[l].len() as int,
    ) by {
        assert(lv[l + 1] == next_slots(lv[l]));
        lemma_next_slots_count(lv[l]);
    }
    assert forall|l: int|
        1 <= l < lv.len() && lv[l - 1].len() > 2 && ((lv[l - 1].len() / 2) as int) % 2
            == 1 implies (#[trigger] lv[l])[lv[l].len() - 1] == lv[l][lv[l].len() - 2] by {
        assert(lv[l] == next_slots(lv[l - 1]));
        lemma_next_slots_dup(lv[l - 1]);
    }
}

/// The index of the left child of slot `index`, over a child level of
/// `count` slots: `2 * index`, remapped onto the last real pair when it
/// addresses the slot above an odd-padded duplicate.
pub open spec fn child_index(count: int, index: int) -> int {
    if 2 * index == count {
        count - 2
    } else {
        2 * index
    }
}

/// A binary Merkle hash tree: an immutable stack of levels, the leaf level
/// at index 0 and the single-slot root level last.
pub struct MerkleTree {
    tree: Vec<Vec<u8>>,
}

impl View for MerkleTree {
    type V = Seq<Seq<Seq<u8>>>;

    closed spec fn view(&self) -> Seq<Seq<Seq<u8>>> {
        levels_view(self.tree@)
    }
}

impl MerkleTree {
    /// Each stored level buffer is a whole number of 32-byte slots.
    pub closed spec fn aligned(&self) -> bool {
        forall|l: int| 0 <= l < self.tree@.len() ==> ((#[trigger] self.tree@[l])@).len() % 32 == 0
    }

    /// A well-formed tree, as every tree returned by `new` is.
    pub open spec fn wf(&self) -> bool {
        self.aligned() && levels_wf(self@)
    }

    /// The root hash value.
    pub open spec fn spec_root(&self) -> Seq<u8> {
        self@[self@.len() - 1][0]
    }

    /// Assemble a tree from `blocks`, distributing each level's hashing over
    /// at most `workers` workers. The level stack — and with it the root —
    /// is a function of the blocks alone, so every worker count yields the
    /// same tree. Rejects an empty block sequence and any block shorter than
    /// `MIN_BLOCK_LEN` bytes, before any hashing begins.
    pub fn new(blocks: &Vec<Vec<u8>>, workers: usize) -> (r: Result<MerkleTree, MerkleError>)
        requires
            workers >= 1,
            32 * (blocks@.len() + 1) <= usize::MAX,
        ensures
            blocks@.len() == 0 ==> r === Err(MerkleError::EmptyInput),
            blocks@.len() > 0 && (exists|i: int|
                0 <= i < blocks@.len() && (#[trigger] blocks@[i])@.len() < MIN_BLOCK_LEN) ==> r
                === Err(MerkleError::UndersizedBlock),
            r is Ok <==> blocks@.len() > 0 && (forall|i: int|
                0 <= i < blocks@.len() ==> (#[trigger] blocks@[i])@.len() >= MIN_BLOCK_LEN),
            r matches Ok(t) ==> t.wf() && t@ == tree_model(blocks.deep_view()),
    {
        let leaf = match build_leaf_level(blocks, workers) {
            Ok(level) => level,
            Err(e) => {
                return Err(e);
            },
        };
        let ghost bv = blocks.deep_view();
        let mut tree: Vec<Vec<u8>> = Vec::new();
        tree.push(leaf);
        proof {
            assert(bv.len() == blocks@.len());
            assert(levels_view(tree@) =~= seq![slots_of(tree@[0]@)]);
            assert(levels_view(tree@).drop_last() =~= Seq::<Seq<Seq<u8>>>::empty());
            assert(tree_model(bv) == levels_view(tree@).drop_last() + tree_levels(
                levels_view(tree@)[tree@.len() - 1],
            ));
            assert(leaf_slots(bv).len() >= 2);
            assert(leaf_slots(bv).len() % 2 == 0);
        }
        while tree[tree.len() - 1].len() > 32
            invariant
                workers >= 1,
                tree@.len() >= 1,
                forall|l: int|
                    0 <= l < tree@.len() ==> ((#[trigger] tree@[l])@).len() % 32 == 0,
                levels_view(tree@)[0] == leaf_slots(bv),
                leaf_slots(bv).len() >= 2,
                forall|l: int|
                    1 <= l < tree@.len() ==> #[trigger] levels_view(tree@)[l] == next_slots(
                        levels_view(tree@)[l - 1],
                    ),
                forall|l: int|
                    0 <= l < tree@.len() - 1 ==> (#[trigger] levels_view(tree@)[l]).len() >= 2
                        && levels_view(tree@)[l].len() % 2 == 0,
                ({
                    let last = levels_view(tree@)[tree@.len() - 1];
                    last.len() >= 1 && (last.len() == 1 || last.len() % 2 == 0)
                }),
                tree_model(bv) == levels_view(tree@).drop_last() + tree_levels(
                    levels_view(tree@)[tree@.len() - 1],
                ),
            decreases tree@[tree@.len() - 1]@.len(),
        {
            proof {
                let last = tree@[tree@.len() - 1]@;
                lemma_fundamental_div_mod(last.len() as int, 32);
                assert(slots_of(last).len() >= 2);
            }
            let next = build_next_level(&tree[tree.len() - 1], workers);
            let ghost old_tree = tree@;
            tree.push(next);
            proof {
                let lv_old = levels_view(old_tree);
                let lv_new = levels_view(tree@);
                let m = lv_old[lv_old.len() - 1].len() as int;
                assert forall|l: int| 0 <= l < lv_old.len() implies lv_new[l] == lv_old[l] by {}
                assert(lv_new[tree@.len() - 1] == next_slots(lv_old[lv_old.len() - 1]));
                lemma_next_slots_count(lv_old[lv_old.len() - 1]);
                lemma_next_count_shrinks(m);
                assert(lv_new.drop_last() =~= lv_old);
                assert(tree_levels(lv_old[lv_old.len() - 1]) == seq![
                    lv_old[lv_old.len() - 1],
                ] + tree_levels(lv_new[tree@.len() - 1]));
                assert(lv_old.drop_last() + tree_levels(lv_old[lv_old.len() - 1])
                    =~= lv_new.drop_last() + tree_levels(lv_new[tree@.len() - 1]));
                assert(tree@[tree@.len() - 1]@.len() == 32 * next_count(m));
                assert(tree@[tree@.len() - 1]@.len() < 32 * m);
            }
        }
        proof {
            let lv = levels_view(tree@);
            let last = lv[lv.len() - 1];
            lemma_fundamental_div_mod(tree@[tree@.len() - 1]@.len() as int, 32);
            assert(last.len() == 1);
            assert(tree_levels(last) == seq![last]);
            assert(lv.drop_last() + tree_levels(last) =~= lv);
            assert(lv.len() >= 2) by {
                assert(lv[0].len() >= 2);
            }
            assert forall|l: int, i: int|
                0 <= l < lv.len() && 0 <= i < lv[l].len() implies (#[trigger] lv[l][i]).len()
                == 32 by {}
            lemma_levels_wf(lv);
        }
        Ok(MerkleTree { tree })
    }

    /// The root hash: the single slot of the last level.
    pub fn get_root(&self) -> (r: &[u8])
        requires
            self.wf(),
        ensures
            r@ == self.spec_root(),
            r@.len() == 32,
    {
        let n = self.tree.len();
        let level = &self.tree[n - 1];
        proof {
            lemma_fundamental_div_mod(level@.len() as int, 32);
            assert(self@[n - 1].len() == 1);
        }
        let r = level.as_slice();
        proof {
            assert(r@ =~= self@[self@.len() - 1][0]);
        }
        r
    }

    /// The number of levels, the leaf level and the root level included.
    pub fn get_num_level(&self) -> (n: usize)
        ensures
            n == self@.len(),
    {
        self.tree.len()
    }

    /// The flat byte buffer of level `index`: 32 bytes per slot, leaf level
    /// at index 0.
    pub fn get_level(&self, index: usize) -> (r: Result<&[u8], MerkleError>)
        requires
            self.wf(),
        ensures
            index < self@.len() <==> r is Ok,
            index >= self@.len() ==> r === Err(MerkleError::IndexOutOfRange),
            r matches Ok(level) ==> level@.len() == 32 * self@[index as int].len()
                && slots_of(level@) == self@[index as int],
    {
        if index >= self.tree.len() {
            return Err(MerkleError::IndexOutOfRange);
        }
        let r = self.tree[index].as_slice();
        proof {
            lemma_fundamental_div_mod(r@.len() as int, 32);
        }
        Ok(r)
    }

    /// The hash value at slot `index` of level `level`.
    pub fn get_hash(&self, level: usize, index: usize) -> (r: Result<&[u8], MerkleError>)
        requires
            self.wf(),
        ensures
            (level < self@.len() && index < self@[level as int].len()) <==> r is Ok,
            !(level < self@.len() && index < self@[level as int].len()) ==> r === Err(
                MerkleError::IndexOutOfRange,
            ),
            r matches Ok(h) ==> h@ == self@[level as int][index as int] && h@.len() == 32,
    {
        if level >= self.tree.len() {
            return Err(MerkleError::IndexOutOfRange);
        }
        let buf = &self.tree[level];
        let count = buf.len() / 32;
        if index >= count {
            return Err(MerkleError::IndexOutOfRange);
        }
        proof {
            lemma_fundamental_div_mod(buf@.len() as int, 32);
        }
        let h = slice_subrange(buf.as_slice(), 32 * index, 32 * index + 32);
        Ok(h)
    }

    /// The parent hash of slot `index` of level `level`: slot `index / 2` of
    /// the level above.
    pub fn get_parent(&self, level: usize, index: usize) -> (r: Result<&[u8], MerkleError>)
        requires
            self.wf(),
        ensures
            (level + 1 < self@.len() && index / 2 < self@[level as int + 1].len()) <==> r is Ok,
            !(level + 1 < self@.len() && index / 2 < self@[level as int + 1].len()) ==> r === Err(
                MerkleError::IndexOutOfRange,
            ),
            r matches Ok(h) ==> h@ == self@[level as int + 1][index as int / 2] && h@.len() == 32,
    {
        if level >= self.tree.len() - 1 {
            return Err(MerkleError::IndexOutOfRange);
        }
        self.get_hash(level + 1, index / 2)
    }

    /// The two child hashes of slot `index` of level `level`: the pair of
    /// the level below that was hashed into it. A slot whose doubled index
    /// addresses the odd-padded duplicate is remapped onto the last real,
    /// non-duplicated pair.
    #[verifier::rlimit(50)]
    pub fn get_children(&self, level: usize, index: usize) -> (r: Result<
        (&[u8], &[u8]),
        MerkleError,
    >)
        requires
            self.wf(),
        ensures
            (1 <= level < self@.len() && 2 * index <= self@[level as int - 1].len()) <==> r is Ok,
            !(1 <= level < self@.len() && 2 * index <= self@[level as int - 1].len()) ==> r
                === Err(MerkleError::IndexOutOfRange),
            r matches Ok(c) ==> ({
                let i = child_index(self@[level as int - 1].len() as int, index as int);
                &&& c.0@ == self@[level as int - 1][i]
                &&& c.1@ == self@[level as int - 1][i + 1]
                &&& c.0@.len() == 32
                &&& c.1@.len() == 32
            }),
    {
        let levels = self.tree.len();
        if level == 0 || level >= levels {
            return Err(MerkleError::IndexOutOfRange);
        }
        let buf = &self.tree[level - 1];
        let count = buf.len() / 32;
        proof {
            lemma_fundamental_div_mod(buf@.len() as int, 32);
            assert(self@[level as int - 1].len() == count);
            assert(count % 2 == 0 && count >= 2);
        }
        if index > count / 2 {
            return Err(MerkleError::IndexOutOfRange);
        }
        let i = if index == count / 2 {
            count - 2
        } else {
            2 * index
        };
        proof {
            lemma_fundamental_div_mod(count as int, 2);
            assert(i == child_index(count as int, index as int));
            assert(i + 2 <= count);
        }
        let a = slice_subrange(buf.as_slice(), 32 * i, 32 * i + 32);
        let b = slice_subrange(buf.as_slice(), 32 * i + 32, 32 * i + 64);
        proof {
            assert(b@ == self@[level as int - 1][i as int + 1]) by {
                assert(self@[level as int - 1][i as int + 1] == buf@.subrange(
                    32 * (i as int + 1),
                    32 * (i as int + 1) + 32,
                ));
            }
        }
        Ok((a, b))
    }
}

} // verus!
