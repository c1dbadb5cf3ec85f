//! Concrete scenarios: reference hash chains, level sizes, odd padding,
//! hex encoding, and the data generator.

use crypto::digest::Digest;
use crypto::sha2::Sha256;
use merkle_tree::build_leaf_level;
use merkle_tree::build_next_level;
use merkle_tree::create_level;
use merkle_tree::gen_data;
use merkle_tree::to_hex_string;
use merkle_tree::MerkleError;
use merkle_tree::MerkleTree;

/// SHA-256 recomputed directly with rust-crypto, outside the library.
fn sha(data: &[u8]) -> Vec<u8> {
    let mut engine = Sha256::new();
    engine.input(data);
    let mut out = vec![0u8; 32];
    engine.result(&mut out);
    out
}

/// The double-stage node hash recomputed directly with rust-crypto.
fn node(left: &[u8], right: &[u8]) -> Vec<u8> {
    let mut cat = left.to_vec();
    cat.extend_from_slice(right);
    sha(&sha(&cat))
}

/// Five zero-filled blocks with distinguishing last bytes 0..4.
fn five_blocks() -> Vec<Vec<u8>> {
    let mut blocks: Vec<Vec<u8>> = Vec::new();
    for i in 0..5u8 {
        let mut b = vec![0u8; 32];
        b[31] = i;
        blocks.push(b);
    }
    blocks
}

#[test]
fn five_blocks_level_sizes() {
    let blocks = five_blocks();
    let tree = MerkleTree::new(&blocks, 1).unwrap();
    assert_eq!(tree.get_num_level(), 4);
    let mut sizes: Vec<usize> = Vec::new();
    for l in 0..4 {
        sizes.push(tree.get_level(l).unwrap().len() / 32);
    }
    assert_eq!(sizes, vec![6, 4, 2, 1]);
}

#[test]
fn five_blocks_root_matches_reference_chain() {
    let blocks = five_blocks();
    let tree = MerkleTree::new(&blocks, 1).unwrap();

    // Level 0: one leaf hash per block, the fifth duplicated to slot 5.
    let h: Vec<Vec<u8>> = blocks.iter().map(|b| sha(b)).collect();
    for i in 0..5 {
        assert_eq!(tree.get_hash(0, i).unwrap(), h[i].as_slice());
    }
    assert_eq!(tree.get_hash(0, 5).unwrap(), h[4].as_slice());

    // Level 1: three pair hashes, the third duplicated to slot 3.
    let l1 = [node(&h[0], &h[1]), node(&h[2], &h[3]), node(&h[4], &h[4])];
    for i in 0..3 {
        assert_eq!(tree.get_hash(1, i).unwrap(), l1[i].as_slice());
    }
    assert_eq!(tree.get_hash(1, 3).unwrap(), l1[2].as_slice());

    // Level 2: two pair hashes; level 3: the root.
    let l2 = [node(&l1[0], &l1[1]), node(&l1[2], &l1[2])];
    assert_eq!(tree.get_hash(2, 0).unwrap(), l2[0].as_slice());
    assert_eq!(tree.get_hash(2, 1).unwrap(), l2[1].as_slice());
    let root = node(&l2[0], &l2[1]);
    assert_eq!(tree.get_root(), root.as_slice());
}

#[test]
fn eight_blocks_levels_and_children() {
    let data = gen_data(8, 32);
    let tree = MerkleTree::new(&data, num_cpus::get()).unwrap();
    assert_eq!(tree.get_num_level(), 4);
    let mut sizes: Vec<usize> = Vec::new();
    for l in 0..4 {
        sizes.push(tree.get_level(l).unwrap().len() / 32);
    }
    assert_eq!(sizes, vec![8, 4, 2, 1]);
    assert_eq!(
        tree.get_children(3, 0).unwrap(),
        (tree.get_hash(2, 0).unwrap(), tree.get_hash(2, 1).unwrap())
    );
}

#[test]
fn odd_padding_duplicates_last_leaf() {
    let data = gen_data(3, 32);
    let tree = MerkleTree::new(&data, 1).unwrap();
    assert_eq!(tree.get_hash(0, 3).unwrap(), tree.get_hash(0, 2).unwrap());
    assert_eq!(tree.get_level(0).unwrap().len() / 32, 4);
}

#[test]
fn roots_agree_across_worker_counts() {
    let data = gen_data(13, 48);
    let tree_1 = MerkleTree::new(&data, 1).unwrap();
    let tree_3 = MerkleTree::new(&data, 3).unwrap();
    let tree_8 = MerkleTree::new(&data, 8).unwrap();
    assert_eq!(tree_1.get_root(), tree_3.get_root());
    assert_eq!(tree_1.get_root(), tree_8.get_root());
}

#[test]
fn undersized_block_is_rejected_before_hashing() {
    let mut data = gen_data(4, 32);
    data[2] = vec![0u8; 31];
    assert!(matches!(MerkleTree::new(&data, 2), Err(MerkleError::UndersizedBlock)));
}

#[test]
fn empty_input_is_rejected() {
    let data: Vec<Vec<u8>> = Vec::new();
    assert!(matches!(MerkleTree::new(&data, 2), Err(MerkleError::EmptyInput)));
}

#[test]
fn leaf_level_of_two_blocks() {
    let blocks = vec![vec![7u8; 32], vec![9u8; 40]];
    let leaf = build_leaf_level(&blocks, 1).unwrap();
    assert_eq!(leaf.len(), 64);
    assert_eq!(&leaf[0..32], sha(&blocks[0]).as_slice());
    assert_eq!(&leaf[32..64], sha(&blocks[1]).as_slice());
}

#[test]
fn leaf_level_rejects_bad_input() {
    let none: Vec<Vec<u8>> = Vec::new();
    assert!(matches!(build_leaf_level(&none, 1), Err(MerkleError::EmptyInput)));
    let short = vec![vec![1u8; 32], vec![2u8; 16]];
    assert!(matches!(build_leaf_level(&short, 1), Err(MerkleError::UndersizedBlock)));
}

#[test]
fn next_level_of_two_slots_is_the_root() {
    let blocks = vec![vec![7u8; 32], vec![9u8; 32]];
    let leaf = build_leaf_level(&blocks, 2).unwrap();
    let next = build_next_level(&leaf, 2);
    assert_eq!(next.len(), 32);
    assert_eq!(next, node(&sha(&blocks[0]), &sha(&blocks[1])));
}

#[test]
fn next_level_pads_an_odd_pair_count() {
    let blocks = vec![
        vec![1u8; 32],
        vec![2u8; 32],
        vec![3u8; 32],
        vec![4u8; 32],
        vec![5u8; 32],
        vec![6u8; 32],
    ];
    let leaf = build_leaf_level(&blocks, 2).unwrap();
    let next = build_next_level(&leaf, 2);
    assert_eq!(next.len(), 4 * 32);
    assert_eq!(&next[64..96], &next[96..128]);
}

#[test]
fn hex_of_known_bytes() {
    assert_eq!(to_hex_string(&[]), "");
    assert_eq!(to_hex_string(&[0x00]), "00");
    assert_eq!(to_hex_string(&[0xFF]), "FF");
    assert_eq!(to_hex_string(&[0x00, 0xFF, 0x1A, 0x2B]), "00FF1A2B");
    assert_eq!(
        to_hex_string(&[0x01, 0x23, 0x45, 0x67, 0x89, 0xAB, 0xCD, 0xEF]),
        "0123456789ABCDEF"
    );
}

#[test]
fn hex_of_a_real_root_is_64_uppercase_digits() {
    let tree = MerkleTree::new(&five_blocks(), 1).unwrap();
    let s = to_hex_string(tree.get_root());
    assert_eq!(s.len(), 64);
    assert!(s.chars().all(|c| c.is_ascii_digit() || ('A'..='F').contains(&c)));
}

#[test]
fn gen_data_shape_and_byte_bound() {
    let data = gen_data(3, 40);
    assert_eq!(data.len(), 3);
    for block in &data {
        assert_eq!(block.len(), 40);
        for &b in block {
            assert!(b < 255);
        }
    }
}

#[test]
fn create_level_is_zero_filled() {
    let level = create_level(64);
    assert_eq!(level.len(), 64);
    assert!(level.iter().all(|&b| b == 0));
}
