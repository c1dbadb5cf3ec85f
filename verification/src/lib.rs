//! A binary Merkle hash tree over an ordered sequence of byte blocks.
//!
//! The tree is a stack of levels. Level 0 holds one SHA-256 hash per input
//! block; every further level hashes consecutive pairs of the previous level
//! with a double SHA-256, duplicating the last slot of an odd intermediate
//! count so that every non-root level keeps an even slot count. The last
//! level holds the single root hash. Construction distributes the hashing of
//! one level over a bounded set of workers; the result is the same for every
//! worker count.

pub mod gen;
pub mod hash;
pub mod hex;
pub mod laws;
pub mod level;
pub mod tree;

pub use gen::gen_data;
pub use hash::{HASH_LEN, MIN_BLOCK_LEN};
pub use hex::to_hex_string;
pub use level::{build_leaf_level, build_next_level, create_level};
pub use tree::{MerkleError, MerkleTree};
