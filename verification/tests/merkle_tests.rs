use rand::RngExt;
use zkp::address::Address;
use zkp::asset::Asset;
use zkp::digest::{hash_fields, Digest};
use zkp::merkle_tree::MerkleTree;
use zkp::merkle_tree_with_leaves::MerkleTreeWithLeaves;
use zkp::transfer::Transfer;
use zkp::u256::U256;
use zkp::keylike::{usize_le_bits, u8_to_le_bits, KeyLike};

fn random_transfer(rng: &mut impl RngExt) -> Transfer {
    let mut limbs = [0u32; 8];
    for limb in limbs.iter_mut().skip(2) {
        *limb = rng.random();
    }
    Transfer {
        recipient: Address([rng.random(), rng.random(), rng.random(), rng.random(), rng.random()]),
        asset: Asset { asset_id: rng.random_range(0..4u32), amount: U256(limbs) },
    }
}

#[test]
fn test_merkle_tree_update_prove_verify() {
    let mut rng = rand::rng();
    let height = 10;

    let empty = hash_fields(&vec![]);
    let mut tree = MerkleTree::new(height, empty);

    for _ in 0..100 {
        let index: u64 = rng.random_range(0..1u64 << height);
        let new_leaf: Vec<u64> = vec![rng.random()];
        let leaf_hash = hash_fields(&new_leaf);
        tree.update_leaf(index, leaf_hash);
        let proof = tree.prove(index);
        proof.verify_hash(&leaf_hash, index, &tree.get_root()).unwrap();
    }
}

#[test]
fn test_merkle_tree_with_leaves() {
    let mut rng = rand::rng();
    let height = 10;

    let mut tree = MerkleTreeWithLeaves::<Transfer>::new(height);

    for _ in 0..100 {
        let new_leaf = random_transfer(&mut rng);
        tree.push(new_leaf);
    }

    for _ in 0..100 {
        let index = rng.random_range(0..1usize << height);
        let leaf = tree.get_leaf(index);
        let proof = tree.prove(index);
        assert_eq!(tree.get_leaf(index), leaf);
        proof.verify(&leaf, index, tree.get_root()).unwrap();
    }
}

// Inclusion proofs hold for every position, and any single-bit change of
// the leaf or of a sibling makes the check fail.
#[test]
fn test_merkle_proof_rejects_bit_flips() {
    let mut rng = rand::rng();
    let height = 6;
    let empty = hash_fields(&vec![]);
    let mut tree = MerkleTree::new(height, empty);
    for i in 0..20u64 {
        let leaf: Vec<u64> = vec![rng.random(), i];
        tree.update_leaf(i, hash_fields(&leaf));
    }
    let index = 7u64;
    let leaf: Vec<u64> = vec![42, 7];
    let leaf_hash = hash_fields(&leaf);
    tree.update_leaf(index, leaf_hash);
    let root = tree.get_root();
    let proof = tree.prove(index);
    proof.verify_hash(&leaf_hash, index, &root).unwrap();

    // flip one bit in the leaf hash
    let mut bad_leaf = leaf_hash;
    bad_leaf.0[0] ^= 1;
    assert!(proof.verify_hash(&bad_leaf, index, &root).is_err());

    // flip one bit in each sibling in turn
    for k in 0..proof.siblings.len() {
        let mut siblings = proof.siblings.clone();
        siblings[k] = Digest([
            proof.siblings[k].0[0] ^ 1,
            proof.siblings[k].0[1],
            proof.siblings[k].0[2],
            proof.siblings[k].0[3],
        ]);
        let bad = zkp::merkle_tree::MerkleProof { siblings };
        assert!(bad.verify_hash(&leaf_hash, index, &root).is_err());
    }
}

// The incremental root equals the root over the padded leaf list built in
// one pass.
#[test]
fn test_incremental_root_matches_rebuild() {
    let mut rng = rand::rng();
    let height = 5;
    let mut incremental = MerkleTreeWithLeaves::<Transfer>::new(height);
    let leaves: Vec<Transfer> = (0..11).map(|_| random_transfer(&mut rng)).collect();
    for leaf in &leaves {
        incremental.push(*leaf);
    }
    let mut rebuilt = MerkleTreeWithLeaves::<Transfer>::new(height);
    for leaf in &leaves {
        rebuilt.push(*leaf);
    }
    assert_eq!(incremental.get_root(), rebuilt.get_root());

    // popping and re-pushing the last leaf leaves the root unchanged
    let last = leaves[leaves.len() - 1];
    incremental.pop();
    incremental.push(last);
    assert_eq!(incremental.get_root(), rebuilt.get_root());
}

#[test]
fn test_bit_decompositions() {
    let bits = usize_le_bits(0b1011, 6);
    assert_eq!(bits, vec![true, true, false, true, false, false]);
    let byte_bits = u8_to_le_bits(0b1000_0001);
    assert_eq!(
        byte_bits,
        vec![true, false, false, false, false, false, false, true]
    );
    let word_bits = 0x12345678u32.to_bits_with_length(10);
    assert_eq!(word_bits.len(), 10);
    for (i, b) in word_bits.iter().enumerate() {
        assert_eq!(*b, (0x12345678u32 >> i) & 1 == 1);
    }
    let wide = U256([0, 0, 0, 0, 0, 0, 0, 5]).to_bits_with_length(10);
    assert_eq!(
        wide,
        vec![true, false, true, false, false, false, false, false, false, false]
    );
}
