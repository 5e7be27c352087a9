use ministark::hash::HashOutput;
use ministark::merkle::{
    Error, HashedLeafConfig, MerkleProof, MerkleTree, MerkleTreeConfig, MerkleTreeImpl,
    UnhashedLeafConfig,
};
use sha2::{Digest, Sha256};

fn sha(bytes: &[u8]) -> HashOutput {
    Sha256::digest(bytes).into()
}

fn hashed_leaves(values: &[u32]) -> Vec<HashOutput> {
    values.iter().map(|&v| sha(&v.to_be_bytes())).collect()
}

#[test]
fn verify() -> Result<(), Error> {
    let leaves = vec![1u32, 2, 3, 4, 5, 6, 7, 8];
    let tree = MerkleTreeImpl::<UnhashedLeafConfig>::new(leaves)?;
    let commitment = tree.root();
    let i = 3;

    let proof = tree.prove(i)?;

    MerkleTreeImpl::verify(commitment, &proof, i)
}

#[test]
fn verify_hashed_leaves() -> Result<(), Error> {
    let leaves = [1u32, 2, 3, 4, 5, 6, 7, 8];
    let hashed_leaves = hashed_leaves(&leaves);
    let tree = MerkleTreeImpl::<HashedLeafConfig>::new(hashed_leaves)?;
    let commitment = tree.root();
    let i = 3;

    let proof = tree.prove(i)?;

    MerkleTreeImpl::verify(commitment, &proof, i)
}

#[test]
fn verify_large_tree() -> Result<(), Error> {
    let leaves = (0..1 << 10).collect::<Vec<u32>>();
    let tree = MerkleTreeImpl::<UnhashedLeafConfig>::new(leaves)?;
    let commitment = tree.root();
    let i = 378;

    let proof = tree.prove(i)?;

    MerkleTreeImpl::verify(commitment, &proof, i)
}

#[test]
fn hashed_and_raw_roots_differ() {
    let leaves = [1u32, 2, 3, 4, 5, 6, 7, 8];
    let raw = MerkleTreeImpl::<UnhashedLeafConfig>::new(leaves.to_vec()).unwrap();
    let hashed = MerkleTreeImpl::<HashedLeafConfig>::new(hashed_leaves(&leaves)).unwrap();
    assert_ne!(raw.root(), hashed.root());
}

#[test]
fn large_tree_rejects_mutated_path() {
    let leaves = (0..1 << 10).collect::<Vec<u32>>();
    let tree = MerkleTreeImpl::<UnhashedLeafConfig>::new(leaves).unwrap();
    let proof = tree.prove(378).unwrap();
    let mut path = proof.path().to_vec();
    path[0][0] ^= 1;
    let bad = MerkleProof::<UnhashedLeafConfig>::new(*proof.leaf(), *proof.sibling(), path);
    assert_eq!(MerkleTreeImpl::verify(tree.root(), &bad, 378), Err(Error::InvalidProof));
}

#[test]
fn too_few_leaves() {
    let r = MerkleTreeImpl::<UnhashedLeafConfig>::new(vec![42]);
    assert_eq!(r.err(), Some(Error::TooFewLeaves { expected: 2, actual: 1 }));
    let r = MerkleTreeImpl::<UnhashedLeafConfig>::new(vec![]);
    assert_eq!(r.err(), Some(Error::TooFewLeaves { expected: 2, actual: 0 }));
}

#[test]
fn leaves_not_power_of_two() {
    let r = MerkleTreeImpl::<UnhashedLeafConfig>::new(vec![1, 2, 3, 4, 5, 6]);
    assert_eq!(r.err(), Some(Error::NumberOfLeavesNotPowerOfTwo { n: 6 }));
}

#[test]
fn prove_out_of_bounds() {
    let tree = MerkleTreeImpl::<UnhashedLeafConfig>::new(vec![1, 2, 3, 4]).unwrap();
    assert_eq!(tree.prove(4).err(), Some(Error::LeafIndexOutOfBounds { i: 4, n: 4 }));
}

#[test]
fn every_index_verifies() {
    let leaves = (100..116).collect::<Vec<u32>>();
    let tree = MerkleTreeImpl::<UnhashedLeafConfig>::new(leaves).unwrap();
    for i in 0..16 {
        let proof = tree.prove(i).unwrap();
        assert_eq!(proof.height(), 4);
        assert_eq!(*proof.leaf(), 100 + i as u32);
        assert_eq!(*proof.sibling(), 100 + (i ^ 1) as u32);
        assert_eq!(MerkleTreeImpl::verify(tree.root(), &proof, i), Ok(()));
    }
}

#[test]
fn wrong_index_rejected() {
    let leaves = vec![1u32, 2, 3, 4, 5, 6, 7, 8];
    let tree = MerkleTreeImpl::<UnhashedLeafConfig>::new(leaves).unwrap();
    let proof = tree.prove(3).unwrap();
    for j in [0usize, 1, 2, 4, 5, 6, 7] {
        assert_eq!(MerkleTreeImpl::verify(tree.root(), &proof, j), Err(Error::InvalidProof));
    }
}

#[test]
fn flipped_bits_rejected() {
    let leaves = hashed_leaves(&[1, 2, 3, 4, 5, 6, 7, 8]);
    let tree = MerkleTreeImpl::<HashedLeafConfig>::new(leaves).unwrap();
    let proof = tree.prove(5).unwrap();
    let root = *tree.root();

    let mut leaf = *proof.leaf();
    leaf[7] ^= 0x10;
    let p = MerkleProof::<HashedLeafConfig>::new(leaf, *proof.sibling(), proof.path().to_vec());
    assert_eq!(MerkleTreeImpl::verify(&root, &p, 5), Err(Error::InvalidProof));

    let mut sibling = *proof.sibling();
    sibling[31] ^= 1;
    let p = MerkleProof::<HashedLeafConfig>::new(*proof.leaf(), sibling, proof.path().to_vec());
    assert_eq!(MerkleTreeImpl::verify(&root, &p, 5), Err(Error::InvalidProof));

    let mut path = proof.path().to_vec();
    path[1][0] ^= 0x80;
    let p = MerkleProof::<HashedLeafConfig>::new(*proof.leaf(), *proof.sibling(), path);
    assert_eq!(MerkleTreeImpl::verify(&root, &p, 5), Err(Error::InvalidProof));

    let mut bad_root = root;
    bad_root[3] ^= 4;
    assert_eq!(MerkleTreeImpl::verify(&bad_root, &proof, 5), Err(Error::InvalidProof));
}

#[test]
fn two_leaf_root_is_hash_of_encodings() {
    let tree = MerkleTreeImpl::<UnhashedLeafConfig>::new(vec![1, 0x0a0b0c0d]).unwrap();
    let mut bytes = Vec::new();
    bytes.extend_from_slice(&1u32.to_be_bytes());
    bytes.extend_from_slice(&0x0a0b0c0du32.to_be_bytes());
    assert_eq!(*tree.root(), sha(&bytes));
    assert_eq!(tree.num_leaves(), 2);
    let proof = tree.prove(1).unwrap();
    assert!(proof.path().is_empty());
    assert_eq!(proof.height(), 1);
}

#[test]
fn four_leaf_root_by_hand() {
    let leaves = hashed_leaves(&[9, 8, 7, 6]);
    let tree = MerkleTreeImpl::<HashedLeafConfig>::new(leaves.clone()).unwrap();
    let pair = |a: &[u8], b: &[u8]| {
        let mut v = a.to_vec();
        v.extend_from_slice(b);
        sha(&v)
    };
    let left = pair(&leaves[0], &leaves[1]);
    let right = pair(&leaves[2], &leaves[3]);
    assert_eq!(HashedLeafConfig::hash_leaves(&leaves[0], &leaves[1]), left);
    assert_eq!(*tree.root(), pair(&left, &right));
    let proof = tree.prove(2).unwrap();
    assert_eq!(proof.path().to_vec(), vec![left]);
}
