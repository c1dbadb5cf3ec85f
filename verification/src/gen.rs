//! The synthetic-data generator for test and bench collaborators: blocks of
//! cryptographically insignificant random bytes.

use vstd::prelude::*;

verus! {

/// rand's thread-local generator, carried between draws.
#[verifier::external_type_specification]
#[verifier::external_body]
pub struct ExThreadRng(rand::rngs::ThreadRng);

/// Relies on rand::thread_rng: a handle to the calling thread's generator.
#[verifier::external_body]
fn new_thread_rng() -> rand::rngs::ThreadRng {
    rand::thread_rng()
}

/// Relies on Rng::gen_range over `0..bound`: a value drawn from
/// `[0, bound)`; the range is never empty here, so the call cannot panic.
/// Nothing more is promised of a random draw.
#[verifier::external_body]
fn gen_byte_below(rng: &mut rand::rngs::ThreadRng, bound: u8) -> (r: u8)
    requires
        bound >= 1,
    ensures
        r < bound,
{
    rand::Rng::gen_range(rng, 0..bound)
}

/// Create random data: `num_block` blocks of `size_block` random bytes each,
/// every byte drawn from below 255.
pub fn gen_data(num_block: usize, size_block: usize) -> (data: Vec<Vec<u8>>)
    ensures
        data@.len() == num_block,
        forall|i: int| 0 <= i < num_block ==> (#[trigger] data@[i])@.len() == size_block,
        forall|i: int, k: int|
            0 <= i < num_block && 0 <= k < size_block ==> (#[trigger] data@[i]@[k]) < 255,
{
    let mut rng = new_thread_rng();
    let mut data: Vec<Vec<u8>> = Vec::new();
    for i in 0..num_block
        invariant
            data@.len() == i,
            forall|ii: int| 0 <= ii < i ==> (#[trigger] data@[ii])@.len() == size_block,
            forall|ii: int, k: int|
                0 <= ii < i && 0 <= k < size_block ==> (#[trigger] data@[ii]@[k]) < 255,
    {
        let mut block: Vec<u8> = Vec::new();
        for k in 0..size_block
            invariant
                block@.len() == k,
                forall|kk: int| 0 <= kk < k ==> (#[trigger] block@[kk]) < 255,
        {
            let b = gen_byte_below(&mut rng, 255);
            block.push(b);
        }
        data.push(block);
    }
    data
}

} // verus!
