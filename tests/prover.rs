use ministark::channel::ProverChannel;
use ministark::field::{Fp, GpuField, MODULUS};
use ministark::matrix::{Matrix, MatrixMerkleTree, MatrixMerkleTreeImpl};
use ministark::merkle::MerkleTree;
use ministark::prover::{ProofOptions, ProofSession, Prover, ProverStage, ProvingError, TraceInfo};
use sha2::{Digest, Sha256};

fn sha(bytes: &[u8]) -> [u8; 32] {
    Sha256::digest(bytes).into()
}

fn info(trace_len: usize) -> TraceInfo {
    TraceInfo { num_base_columns: 1, num_extension_columns: 0, trace_len }
}

#[test]
fn proof_options_new() {
    let o = ProofOptions::new(20, 4);
    assert_eq!(o.num_queries, 20);
    assert_eq!(o.blowup_factor, 4);
}

#[test]
fn field_name() {
    assert_eq!(Fp::field_name(), "fp18446744069414584321");
}

#[test]
fn quotients_multiply_in_field() {
    let prover = Prover::new(ProofOptions::new(1, 2));
    let evals = Matrix::new(vec![vec![MODULUS - 1, 3], vec![2, 1 << 40]]);
    let q = prover.generate_quotients(evals, &vec![MODULUS - 1, 1 << 30]);
    // 2^70 = 2^6 * 2^64 and 2^64 = 2^32 - 1 (mod p)
    let expected = ((1u128 << 70) % MODULUS as u128) as u64;
    assert_eq!(expected, 64 * ((1u64 << 32) - 1));
    assert_eq!(q.0, vec![vec![1, 3 << 30], vec![MODULUS - 2, expected]]);
}

#[test]
fn constraint_commitment_sums_quotients() {
    let prover = Prover::new(ProofOptions::new(1, 2));
    let b = Matrix::new(vec![vec![1, 2]]);
    let t = Matrix::new(vec![vec![3, 4], vec![5, 6]]);
    let m = Matrix::new(vec![vec![MODULUS - 1, 0]]);
    let (col, tree) = prover.build_constraint_commitment(
        b, &vec![2, 2], t, &vec![1, 10], m, &vec![1, 1],
    );
    // row 0: 1*2 + 3*1 + 5*1 + (p-1)*1 = 9 ; row 1: 2*2 + 4*10 + 6*10 + 0 = 104
    assert_eq!(col.0, vec![vec![9, 104]]);
    let direct = MatrixMerkleTreeImpl::from_matrix(&col);
    assert_eq!(tree.root(), direct.root());
}

#[test]
fn channel_is_deterministic() {
    let mut a = ProverChannel::new(b"public inputs");
    let mut b = ProverChannel::new(b"public inputs");
    assert_eq!(a.get_challenges(5), b.get_challenges(5));
    let root = sha(b"root");
    a.commit_trace(&root);
    b.commit_trace(&root);
    let ca = a.get_challenges(7);
    assert_eq!(ca.len(), 7);
    assert!(ca.iter().all(|&x| x < MODULUS));
    assert_eq!(ca, b.get_challenges(7));
    assert_ne!(ca, ProverChannel::new(b"public inputs").get_challenges(7));
    assert_eq!(a.get_challenges(0), Vec::<u64>::new());
}

#[test]
fn first_challenge_by_hand() {
    let ch = ProverChannel::new(b"abc");
    let state = sha(b"abc");
    let mut bytes = state.to_vec();
    bytes.extend_from_slice(&0u64.to_le_bytes());
    let d = sha(&bytes);
    let x = u64::from_le_bytes(d[..8].try_into().unwrap());
    let got = ch.get_challenges(1);
    if x < MODULUS {
        assert_eq!(got, vec![x]);
    } else {
        assert_ne!(got, vec![x]);
    }
}

fn merkle_root_by_hand(leaves: Vec<[u8; 32]>) -> [u8; 32] {
    let mut layer = leaves;
    while layer.len() > 1 {
        layer = layer
            .chunks(2)
            .map(|p| {
                let mut v = p[0].to_vec();
                v.extend_from_slice(&p[1]);
                sha(&v)
            })
            .collect();
    }
    layer[0]
}

fn run_constant_trace() -> (ProofSession, Vec<u64>) {
    let options = ProofOptions::new(20, 4);
    let mut session = ProofSession::new(options, info(8), b"pub", 2, 3).unwrap();
    assert_eq!(session.lde_len(), 32);
    let lde = Matrix::new(vec![vec![7u64; 32]]);
    let challenges = session.commit_base_trace(lde);
    session.commit_extension_trace(None);
    let zero = || Matrix::new(vec![vec![0u64; 32]]);
    let ones = vec![1u64; 32];
    let proof = session.commit_constraints(zero(), &ones, zero(), &ones, zero(), &ones);
    assert_eq!(proof.options(), options);
    assert_eq!(proof.trace_info(), info(8));
    assert!(proof.commitments().is_empty());
    (session, challenges)
}

#[test]
fn constant_trace_first_root_matches_rows() {
    let (session, challenges) = run_constant_trace();
    assert_eq!(challenges.len(), 3);
    let mut row = Vec::new();
    row.extend_from_slice(&1u64.to_le_bytes());
    row.extend_from_slice(&7u64.to_le_bytes());
    let leaf = sha(&row);
    let roots = session.roots();
    assert_eq!(roots.len(), 2);
    assert_eq!(roots[0], merkle_root_by_hand(vec![leaf; 32]));
}

#[test]
fn two_runs_agree() {
    let (s1, c1) = run_constant_trace();
    let (s2, c2) = run_constant_trace();
    assert_eq!(c1, c2);
    assert_eq!(s1.roots(), s2.roots());
    assert_eq!(s1.challenges(), s2.challenges());
}

#[test]
fn extension_columns_are_appended() {
    let mut session = ProofSession::new(ProofOptions::new(1, 2), info(2), b"x", 1, 2).unwrap();
    session.commit_base_trace(Matrix::new(vec![vec![1, 2, 3, 4]]));
    session.commit_extension_trace(Some(Matrix::new(vec![vec![5, 6, 7, 8]])));
    assert_eq!(session.trace_lde().0, vec![vec![1, 2, 3, 4], vec![5, 6, 7, 8]]);
    assert_eq!(session.roots().len(), 2);
}

#[test]
fn blowup_ordering_enforced() {
    let r = ProofSession::new(ProofOptions::new(1, 2), info(8), b"x", 4, 1);
    assert_eq!(r.err().map(|_| ()), Some(()));
    assert!(matches!(
        ProofSession::new(ProofOptions::new(1, 2), info(8), b"x", 4, 1),
        Err(ProvingError::Fail)
    ));
    assert!(matches!(
        ProofSession::new(ProofOptions::new(1, 2), info(3), b"x", 1, 1),
        Err(ProvingError::Fail)
    ));
    assert!(ProofSession::new(ProofOptions::new(1, 2), info(8), b"x", 2, 1).is_ok());
}

#[test]
fn session_stage_after_start() {
    let s = ProofSession::new(ProofOptions::new(1, 2), info(4), b"x", 1, 1).unwrap();
    assert_eq!(s.stage(), ProverStage::BaseTrace);
}
