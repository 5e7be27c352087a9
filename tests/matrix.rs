use ministark::field::MODULUS;
use ministark::matrix::{
    hash_row, hash_rows, hash_rows_chunked, Matrix, MatrixMerkleTree, MatrixMerkleTreeImpl,
};
use ministark::merkle::MerkleTree;
use ministark::merkle::Error;
use sha2::{Digest, Sha256};

fn row_digest_by_hand(row: &[u64]) -> [u8; 32] {
    let mut bytes = Vec::new();
    bytes.extend_from_slice(&(row.len() as u64).to_le_bytes());
    for v in row {
        bytes.extend_from_slice(&v.to_le_bytes());
    }
    Sha256::digest(&bytes).into()
}

fn sample_matrix(rows: u64, cols: u64) -> Matrix {
    Matrix::new((0..cols).map(|c| (0..rows).map(|r| r * 31 + c * 7 + 1).collect()).collect())
}

#[test]
fn row_hash_is_digest_of_encoding() {
    let row = [1u64, 0x0102030405060708, MODULUS - 1];
    assert_eq!(hash_row(&row), row_digest_by_hand(&row));
}

#[test]
fn matrix_rows() {
    let m = sample_matrix(4, 3);
    assert_eq!(m.num_rows(), 4);
    assert_eq!(m.num_cols(), 3);
    assert_eq!(m.row(2), vec![63, 70, 77]);
    let mut out = vec![0u64; 3];
    m.read_row(1, &mut out);
    assert_eq!(out, vec![32, 39, 46]);
}

#[test]
fn row_round_trip() {
    let m = sample_matrix(8, 3);
    let tree = MatrixMerkleTreeImpl::from_matrix(&m);
    for r in 0..8 {
        let proof = tree.prove_row(r).unwrap();
        assert_eq!(MatrixMerkleTreeImpl::verify_row(tree.root(), r, &m.row(r), &proof), Ok(()));
        let mut other = m.row(r);
        other[0] += 1;
        assert_eq!(
            MatrixMerkleTreeImpl::verify_row(tree.root(), r, &other, &proof),
            Err(Error::InvalidProof)
        );
    }
    assert_eq!(tree.prove_row(8).err(), Some(Error::LeafIndexOutOfBounds { i: 8, n: 8 }));
}

#[test]
fn commit_to_rows_leaves_are_row_hashes() {
    let m = sample_matrix(4, 2);
    let tree = m.commit_to_rows();
    let proof = tree.prove(2).unwrap();
    assert_eq!(*proof.leaf(), row_digest_by_hand(&m.row(2)));
    assert_eq!(*proof.sibling(), row_digest_by_hand(&m.row(3)));
    assert_eq!(MatrixMerkleTreeImpl::verify(tree.root(), &proof, 2), Ok(()));
}

#[test]
fn chunked_row_hashes_match_sequential() {
    let m = sample_matrix(1000, 2);
    let sequential: Vec<[u8; 32]> = (0..1000).map(|r| row_digest_by_hand(&m.row(r))).collect();
    for chunk in [128usize, 129, 500, 1000, 4096] {
        assert_eq!(hash_rows_chunked(&m, chunk), sequential);
    }
    assert_eq!(hash_rows(&m), sequential);
}

#[test]
fn sum_columns_wraps_modulus() {
    let m = Matrix::new(vec![vec![MODULUS - 1, 5], vec![2, 7], vec![MODULUS - 1, 0]]);
    let s = m.sum_columns();
    assert_eq!(s.num_cols(), 1);
    assert_eq!(s.0[0], vec![0, 12]);
    let t = Matrix::new(vec![vec![MODULUS - 1], vec![MODULUS - 1]]).sum_columns();
    assert_eq!(t.0[0], vec![MODULUS - 2]);
}

#[test]
fn append_and_join() {
    let mut a = Matrix::new(vec![vec![1, 2]]);
    a.append(Matrix::new(vec![vec![3, 4], vec![5, 6]]));
    assert_eq!(a.0, vec![vec![1, 2], vec![3, 4], vec![5, 6]]);
    let j = Matrix::join(vec![
        Matrix::new(vec![vec![1, 2]]),
        Matrix::new(vec![vec![3, 4]]),
        Matrix::new(vec![vec![5, 6], vec![7, 8]]),
    ]);
    assert_eq!(j.0, vec![vec![1, 2], vec![3, 4], vec![5, 6], vec![7, 8]]);
}
