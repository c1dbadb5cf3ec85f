//! The level builder: the mathematical model of a tree level and the
//! executable construction of the leaf level and of each next level,
//! distributed over a bounded set of workers.

use crate::hash::{node_hash, node_hash_flat, node_hash_of, sha256_digest, sha256_of,
    MIN_BLOCK_LEN};
use crate::tree::MerkleError;
use rayon::iter::{IntoParallelRefIterator, ParallelIterator};
use rayon::slice::ParallelSlice;
use vstd::arithmetic::div_mod::lemma_fundamental_div_mod;
use vstd::prelude::*;
use vstd::slice::slice_subrange;

verus! {

/// The slots of a flat level buffer: one 32-byte hash value per slot.
pub open spec fn slots_of(level: Seq<u8>) -> Seq<Seq<u8>> {
    Seq::new(level.len() / 32, |i: int| level.subrange(32 * i, 32 * i + 32))
}

/// The slots of the leaf level built from `blocks`: the SHA-256 hash of each
/// block, with the last hash duplicated when the block count is odd.
pub open spec fn leaf_slots(blocks: Seq<Seq<u8>>) -> Seq<Seq<u8>> {
    let hashes = Seq::new(blocks.len(), |i: int| sha256_of(blocks[i]));
    if blocks.len() % 2 == 1 {
        hashes.push(hashes.last())
    } else {
        hashes
    }
}

/// The slots of the level above `prev`: one double-stage hash per consecutive
/// pair, the last slot duplicated when the pair count is odd — except that a
/// level of at most two slots collapses directly to the single root slot.
pub open spec fn next_slots(prev: Seq<Seq<u8>>) -> Seq<Seq<u8>> {
    if prev.len() <= 2 {
        seq![node_hash_of(prev[0], prev[1])]
    } else {
        let pairs = Seq::new(prev.len() / 2, |i: int| node_hash_of(prev[2 * i], prev[2 * i + 1]));
        if (prev.len() / 2) % 2 == 1 {
            pairs.push(pairs.last())
        } else {
            pairs
        }
    }
}

/// The slot count of the level above a level of `m` slots.
pub open spec fn next_count(m: int) -> int {
    if m <= 2 {
        1
    } else {
        m / 2 + (m / 2) % 2
    }
}

/// The slot count of the level above is the slot count `next_count` gives.
pub proof fn lemma_next_slots_count(prev: Seq<Seq<u8>>)
    ensures
        next_slots(prev).len() == next_count(prev.len() as int),
{
}

/// Every level shrinks: the next level has fewer slots than a level of two or
/// more slots.
pub proof fn lemma_next_count_shrinks(m: int)
    requires
        m >= 2,
    ensures
        1 <= next_count(m) < m,
{
}

/// When a level of more than two slots halves to an odd pair count, the
/// level above ends in two equal slots: the odd-padding duplicate.
pub proof fn lemma_next_slots_dup(prev: Seq<Seq<u8>>)
    requires
        prev.len() > 2,
        ((prev.len() / 2) as int) % 2 == 1,
    ensures
        next_slots(prev)[next_slots(prev).len() - 1] == next_slots(prev)[next_slots(prev).len()
            - 2],
{
}

/// Allocate the blueprint of a new tree level: a zero-filled buffer.
pub fn create_level(size: usize) -> (level: Vec<u8>)
    ensures
        level@.len() == size,
        forall|i: int| 0 <= i < size ==> level@[i] == 0u8,
{
    let mut level: Vec<u8> = Vec::new();
    for k in 0..size
        invariant
            level@.len() == k,
            forall|i: int| 0 <= i < k ==> level@[i] == 0u8,
    {
        level.push(0u8);
    }
    level
}

/// Hash every block sequentially: the fallback when no worker pool can be
/// built.
fn seq_hash_all(blocks: &Vec<Vec<u8>>) -> (r: Vec<Vec<u8>>)
    ensures
        r@.len() == blocks@.len(),
        forall|j: int| 0 <= j < r@.len() ==> (#[trigger] r@[j])@ == sha256_of(blocks@[j]@),
        forall|j: int| 0 <= j < r@.len() ==> (#[trigger] r@[j])@.len() == 32,
{
    let mut r: Vec<Vec<u8>> = Vec::new();
    let n = blocks.len();
    for j in 0..n
        invariant
            n == blocks@.len(),
            r@.len() == j,
            forall|jj: int| 0 <= jj < j ==> (#[trigger] r@[jj])@ == sha256_of(blocks@[jj]@),
            forall|jj: int| 0 <= jj < j ==> (#[trigger] r@[jj])@.len() == 32,
    {
        let h = sha256_digest(blocks[j].as_slice());
        r.push(h);
    }
    r
}

/// Hash every consecutive 64-byte pair of `prev` sequentially: the fallback
/// when no worker pool can be built.
fn seq_hash_pairs(prev: &Vec<u8>) -> (r: Vec<Vec<u8>>)
    requires
        prev@.len() % 64 == 0,
    ensures
        r@.len() == prev@.len() / 64,
        forall|j: int| 0 <= j < r@.len() ==> (#[trigger] r@[j])@ == node_hash_flat(
            prev@.subrange(64 * j, 64 * j + 64),
        ),
        forall|j: int| 0 <= j < r@.len() ==> (#[trigger] r@[j])@.len() == 32,
{
    let mut r: Vec<Vec<u8>> = Vec::new();
    let pairs = prev.len() / 64;
    proof {
        vstd::arithmetic::div_mod::lemma_fundamental_div_mod(prev@.len() as int, 64);
    }
    assert(prev@.len() <= usize::MAX) by {
        assert(prev@.len() == prev.len());
    }
    for j in 0..pairs
        invariant
            prev@.len() % 64 == 0,
            pairs == prev@.len() / 64,
            prev@.len() == 64 * pairs,
            prev@.len() <= usize::MAX,
            r@.len() == j,
            forall|jj: int| 0 <= jj < j ==> (#[trigger] r@[jj])@ == node_hash_flat(
                prev@.subrange(64 * jj, 64 * jj + 64),
            ),
            forall|jj: int| 0 <= jj < j ==> (#[trigger] r@[jj])@.len() == 32,
    {
        let pair = slice_subrange(prev.as_slice(), 64 * j, 64 * j + 64);
        let h = node_hash(pair);
        r.push(h);
    }
    r
}

/// Concatenate a list of 32-byte hash values into one flat level buffer.
fn flatten_hashes(hashes: &Vec<Vec<u8>>) -> (level: Vec<u8>)
    requires
        forall|j: int| 0 <= j < hashes@.len() ==> (#[trigger] hashes@[j])@.len() == 32,
        32 * hashes@.len() <= usize::MAX,
    ensures
        level@.len() == 32 * hashes@.len(),
        forall|j: int| 0 <= j < hashes@.len() ==> level@.subrange(32 * j, 32 * j + 32)
            == (#[trigger] hashes@[j])@,
{
    let mut level: Vec<u8> = Vec::new();
    let n = hashes.len();
    for j in 0..n
        invariant
            forall|jj: int| 0 <= jj < n ==> (#[trigger] hashes@[jj])@.len() == 32,
            32 * n <= usize::MAX,
            n == hashes@.len(),
            level@.len() == 32 * j,
            forall|jj: int| 0 <= jj < j ==> level@.subrange(32 * jj, 32 * jj + 32)
                == (#[trigger] hashes@[jj])@,
    {
        let h = &hashes[j];
        let ghost prefix = level@;
        for k in 0..32
            invariant
                h@.len() == 32,
                h == hashes@[j as int],
                prefix.len() == 32 * j,
                level@ == prefix + h@.take(k as int),
        {
            level.push(h[k]);
            proof {
                assert(level@ =~= prefix + h@.take(k + 1));
            }
        }
        proof {
            assert(level@ =~= prefix + h@);
            assert forall|jj: int| 0 <= jj < j + 1 implies level@.subrange(32 * jj, 32 * jj + 32)
                == (#[trigger] hashes@[jj])@ by {
                if jj < j {
                    assert(level@.subrange(32 * jj, 32 * jj + 32) =~= prefix.subrange(
                        32 * jj,
                        32 * jj + 32,
                    ));
                } else {
                    assert(level@.subrange(32 * jj, 32 * jj + 32) =~= h@);
                }
            }
        }
    }
    level
}

/// rayon's thread pool, which carries one worker per thread; each task run
/// on it builds its own hash engine, so no digest state is ever shared
/// between workers.
#[verifier::external_type_specification]
#[verifier::external_body]
pub struct ExThreadPool(rayon::ThreadPool);

/// Relies on rayon's `ThreadPoolBuilder`: a pool of `workers` threads, or
/// `None` when the operating system cannot spawn them.
#[verifier::external_body]
fn build_pool(workers: usize) -> (r: Option<rayon::ThreadPool>) {
    rayon::ThreadPoolBuilder::new().num_threads(workers).build().ok()
}

/// Relies on rayon: `par_iter().map(...).collect()`, run on the pool's
/// threads, applies the hash to every block and collects the results in
/// input order.
#[verifier::external_body]
fn par_hash_all(blocks: &Vec<Vec<u8>>, pool: &rayon::ThreadPool) -> (r: Vec<Vec<u8>>)
    ensures
        r@.len() == blocks@.len(),
        forall|j: int| 0 <= j < r@.len() ==> (#[trigger] r@[j])@ == sha256_of(blocks@[j]@),
        forall|j: int| 0 <= j < r@.len() ==> (#[trigger] r@[j])@.len() == 32,
{
    pool.install(|| blocks.par_iter().map(|b| sha256_digest(b.as_slice())).collect())
}

/// Relies on rayon: `par_chunks(64)` yields the disjoint 64-byte chunks of
/// `prev` in order, and `map(...).collect()`, run on the pool's threads,
/// applies the double-stage hash to every chunk and collects the results in
/// order.
#[verifier::external_body]
fn par_hash_pairs(prev: &Vec<u8>, pool: &rayon::ThreadPool) -> (r: Vec<Vec<u8>>)
    requires
        prev@.len() % 64 == 0,
    ensures
        r@.len() == prev@.len() / 64,
        forall|j: int| 0 <= j < r@.len() ==> (#[trigger] r@[j])@ == node_hash_flat(
            prev@.subrange(64 * j, 64 * j + 64),
        ),
        forall|j: int| 0 <= j < r@.len() ==> (#[trigger] r@[j])@.len() == 32,
{
    pool.install(|| prev.as_slice().par_chunks(64).map(|pair| node_hash(pair)).collect())
}

/// Whether one block is shorter than the smallest accepted length.
fn block_is_undersized(block: &Vec<u8>) -> (r: bool)
    ensures
        r == (block@.len() < MIN_BLOCK_LEN),
{
    block.len() < MIN_BLOCK_LEN
}

/// Relies on rayon's `par_iter().any`: whether the predicate holds of at
/// least one block.
#[verifier::external_body]
fn any_block_undersized(blocks: &Vec<Vec<u8>>) -> (r: bool)
    ensures
        r == (exists|i: int|
            0 <= i < blocks@.len() && (#[trigger] blocks@[i])@.len() < MIN_BLOCK_LEN),
{
    blocks.par_iter().any(|b| block_is_undersized(b))
}

/// Hash every block, over a pool of at most `workers` workers clamped to the
/// number of blocks, or sequentially when no pool can be built; the output
/// does not depend on the choice.
fn hash_blocks(blocks: &Vec<Vec<u8>>, workers: usize) -> (r: Vec<Vec<u8>>)
    requires
        workers >= 1,
        blocks@.len() >= 1,
    ensures
        r@.len() == blocks@.len(),
        forall|j: int| 0 <= j < r@.len() ==> (#[trigger] r@[j])@ == sha256_of(blocks@[j]@),
        forall|j: int| 0 <= j < r@.len() ==> (#[trigger] r@[j])@.len() == 32,
{
    let n = blocks.len();
    let w = if workers < n {
        workers
    } else {
        n
    };
    match build_pool(w) {
        Some(pool) => par_hash_all(blocks, &pool),
        None => seq_hash_all(blocks),
    }
}

/// Hash every consecutive pair of `prev`, over a pool of at most `workers`
/// workers clamped to the number of pairs, or sequentially when no pool can
/// be built; the output does not depend on the choice.
fn hash_pairs(prev: &Vec<u8>, workers: usize) -> (r: Vec<Vec<u8>>)
    requires
        workers >= 1,
        prev@.len() % 64 == 0,
        prev@.len() >= 64,
    ensures
        r@.len() == prev@.len() / 64,
        forall|j: int| 0 <= j < r@.len() ==> (#[trigger] r@[j])@ == node_hash_flat(
            prev@.subrange(64 * j, 64 * j + 64),
        ),
        forall|j: int| 0 <= j < r@.len() ==> (#[trigger] r@[j])@.len() == 32,
{
    let pairs = prev.len() / 64;
    let w = if workers < pairs {
        workers
    } else {
        pairs
    };
    match build_pool(w) {
        Some(pool) => par_hash_pairs(prev, &pool),
        None => seq_hash_pairs(prev),
    }
}

/// Append a copy of the last 32-byte slot: the odd-padding duplication.
fn duplicate_last_slot(level: &mut Vec<u8>)
    requires
        old(level)@.len() >= 32,
        old(level)@.len() + 32 <= usize::MAX,
    ensures
        final(level)@ == old(level)@ + old(level)@.subrange(
            old(level)@.len() - 32,
            old(level)@.len() as int,
        ),
{
    let start = level.len() - 32;
    let ghost orig = level@;
    for k in 0..32usize
        invariant
            orig.len() >= 32,
            orig.len() + 32 <= usize::MAX,
            start == orig.len() - 32,
            level@ == orig + orig.subrange(start as int, start + k),
    {
        let b = level[start + k];
        level.push(b);
        proof {
            assert(level@ =~= orig + orig.subrange(start as int, start + k + 1));
        }
    }
    proof {
        assert(level@ =~= orig + orig.subrange(orig.len() - 32, orig.len() as int));
    }
}

/// Build the leaf level from the input blocks, hashing over at most
/// `workers` workers. Rejects an empty block sequence and, before any
/// hashing is dispatched, any block shorter than `MIN_BLOCK_LEN` bytes.
pub fn build_leaf_level(blocks: &Vec<Vec<u8>>, workers: usize) -> (r: Result<
    Vec<u8>,
    MerkleError,
>)
    requires
        workers >= 1,
        32 * (blocks@.len() + 1) <= usize::MAX,
    ensures
        blocks@.len() == 0 ==> r === Err(MerkleError::EmptyInput),
        blocks@.len() > 0 && (exists|i: int|
            0 <= i < blocks@.len() && (#[trigger] blocks@[i])@.len() < MIN_BLOCK_LEN) ==> r
            === Err(MerkleError::UndersizedBlock),
        r is Ok <==> blocks@.len() > 0 && (forall|i: int|
            0 <= i < blocks@.len() ==> (#[trigger] blocks@[i])@.len() >= MIN_BLOCK_LEN),
        r matches Ok(level) ==> {
            &&& level@.len() == 32 * leaf_slots(blocks.deep_view()).len()
            &&& slots_of(level@) == leaf_slots(blocks.deep_view())
        },
{
    let n = blocks.len();
    if n == 0 {
        return Err(MerkleError::EmptyInput);
    }
    if any_block_undersized(blocks) {
        return Err(MerkleError::UndersizedBlock);
    }
    let hashes = hash_blocks(blocks, workers);
    let mut level = flatten_hashes(&hashes);
    let ghost flat = level@;
    if n % 2 == 1 {
        duplicate_last_slot(&mut level);
    }
    proof {
        let dv = blocks.deep_view();
        assert(dv.len() == blocks@.len());
        assert forall|i: int| 0 <= i < dv.len() implies dv[i] == blocks@[i]@ by {}
        let ls = leaf_slots(dv);
        assert forall|j: int| 0 <= j < ls.len() implies slots_of(level@)[j] == ls[j] by {
            if j < n {
                assert(level@.subrange(32 * j, 32 * j + 32) =~= flat.subrange(
                    32 * j,
                    32 * j + 32,
                ));
                assert(flat.subrange(32 * j, 32 * j + 32) == hashes@[j]@);
            } else {
                assert(level@.subrange(32 * j, 32 * j + 32) =~= flat.subrange(
                    32 * (j - 1),
                    32 * (j - 1) + 32,
                ));
                assert(flat.subrange(32 * (j - 1), 32 * (j - 1) + 32) == hashes@[j - 1]@);
            }
        }
        assert(slots_of(level@) =~= ls);
    }
    Ok(level)
}

/// Build the level above `prev`, hashing each consecutive pair of slots over
/// at most `workers` workers. A level of two slots collapses to the single
/// root slot; otherwise an odd pair count is padded by duplicating the last
/// slot.
pub fn build_next_level(prev: &Vec<u8>, workers: usize) -> (next: Vec<u8>)
    requires
        workers >= 1,
        prev@.len() % 32 == 0,
        prev@.len() >= 64,
        (prev@.len() / 32) % 2 == 0,
    ensures
        next@.len() == 32 * next_count(prev@.len() as int / 32),
        slots_of(next@) == next_slots(slots_of(prev@)),
{
    let m = prev.len() / 32;
    proof {
        lemma_fundamental_div_mod(prev@.len() as int, 32);
        lemma_fundamental_div_mod(m as int, 2);
        assert(prev@.len() == 64 * (m / 2)) by {
            assert(prev@.len() == 32 * m);
            assert(m == 2 * (m / 2));
        }
        assert(prev@.len() % 64 == 0) by {
            vstd::arithmetic::div_mod::lemma_mod_multiples_basic(m as int / 2, 64);
        }
        assert(prev@.len() / 64 == m / 2) by {
            vstd::arithmetic::div_mod::lemma_div_by_multiple(m as int / 2, 64);
        }
    }
    let hashes = hash_pairs(prev, workers);
    let mut level = flatten_hashes(&hashes);
    let ghost flat = level@;
    let pairs = m / 2;
    if m > 2 && pairs % 2 == 1 {
        duplicate_last_slot(&mut level);
    }
    proof {
        let ps = slots_of(prev@);
        let ns = next_slots(ps);
        assert(ps.len() == m);
        assert forall|j: int| 0 <= j < pairs implies hashes@[j]@ == node_hash_of(
            ps[2 * j],
            ps[2 * j + 1],
        ) by {
            assert(prev@.subrange(64 * j, 64 * j + 64) =~= prev@.subrange(
                64 * j,
                64 * j + 32,
            ) + prev@.subrange(64 * j + 32, 64 * j + 64));
            assert(ps[2 * j] == prev@.subrange(32 * (2 * j), 32 * (2 * j) + 32));
            assert(ps[2 * j + 1] == prev@.subrange(32 * (2 * j + 1), 32 * (2 * j + 1) + 32));
        }
        assert forall|j: int| 0 <= j < ns.len() implies slots_of(level@)[j] == ns[j] by {
            if j < pairs {
                assert(level@.subrange(32 * j, 32 * j + 32) =~= flat.subrange(
                    32 * j,
                    32 * j + 32,
                ));
                assert(flat.subrange(32 * j, 32 * j + 32) == hashes@[j]@);
            } else {
                assert(level@.subrange(32 * j, 32 * j + 32) =~= flat.subrange(
                    32 * (j - 1),
                    32 * (j - 1) + 32,
                ));
                assert(flat.subrange(32 * (j - 1), 32 * (j - 1) + 32) == hashes@[j - 1]@);
            }
        }
        assert(slots_of(level@) =~= ns);
    }
    level
}

} // verus!
