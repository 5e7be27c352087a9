use vstd::prelude::*;
use ark_serialize::CanonicalSerialize;
use crate::field::{all_felts, felt_add, is_felt, MODULUS};
use crate::hash::{sha256, sha256_of, HashOutput};
use crate::merkle::{
    accepts, digests_view, is_pow2, is_proof_for, lemma_merkle_soundness, lemma_root_digest, node_spec, Error, HashedLeafConfig, MerkleProof,
    MerkleTree, MerkleTreeImpl,
};

verus! {

/// Little-endian encoding of a `u64`.
pub open spec fn u64_le_bytes(x: u64) -> Seq<u8> {
    seq![
        x as u8,
        (x >> 8u64) as u8,
        (x >> 16u64) as u8,
        (x >> 24u64) as u8,
        (x >> 32u64) as u8,
        (x >> 40u64) as u8,
        (x >> 48u64) as u8,
        (x >> 56u64) as u8,
    ]
}

/// The elements of `s`, eight little-endian bytes each.
pub open spec fn felts_le_bytes(s: Seq<u64>) -> Seq<u8>
    decreases s.len(),
{
    if s.len() == 0 {
        Seq::empty()
    } else {
        felts_le_bytes(s.drop_last()) + u64_le_bytes(s.last())
    }
}

/// Canonical compressed encoding of a row of field elements: the row's length,
/// then each element, all as eight little-endian bytes.
pub open spec fn row_bytes(row: Seq<u64>) -> Seq<u8> {
    u64_le_bytes(row.len() as u64) + felts_le_bytes(row)
}

/// The digest of a row: SHA-256 of its canonical encoding.
pub open spec fn row_hash(row: Seq<u64>) -> Seq<u8> {
    sha256_of(row_bytes(row))
}

/// Relies on ark_serialize's `CanonicalSerialize` for `[u64]`: the length as a
/// `u64`, then each element, each written with `to_le_bytes`.
#[verifier::external_body]
fn serialize_row(row: &[u64]) -> (r: Vec<u8>)
    ensures
        r@ == row_bytes(row@),
{
    let mut bytes = Vec::new();
    row.serialize_compressed(&mut bytes).unwrap();
    bytes
}

/// Hashes one row of field elements.
pub fn hash_row(row: &[u64]) -> (r: HashOutput)
    ensures
        r@ == row_hash(row@),
{
    let bytes = serialize_row(row);
    sha256(bytes.as_slice())
}

/// Columns of a matrix all have one length, and there is at least one.
pub open spec fn is_rect(cols: Seq<Seq<u64>>) -> bool {
    &&& cols.len() >= 1
    &&& forall|j: int| 0 <= j < cols.len() ==> (#[trigger] cols[j]).len() == cols[0].len()
}

/// Row `i` of a column-major matrix.
pub open spec fn row_of(cols: Seq<Seq<u64>>, i: int) -> Seq<u64> {
    Seq::new(cols.len(), |j: int| cols[j][i])
}

/// Sum, in the field, of the entries of row `i` in the first `k` columns.
pub open spec fn row_sum(cols: Seq<Seq<u64>>, i: int, k: int) -> int
    decreases k,
{
    if k <= 0 {
        0
    } else {
        (row_sum(cols, i, k - 1) + cols[k - 1][i]) % (MODULUS as int)
    }
}

/// A column-major matrix of field elements.
#[derive(Clone, Debug, PartialEq, Eq)]
pub struct Matrix(pub Vec<Vec<u64>>);

impl View for Matrix {
    type V = Seq<Seq<u64>>;

    open spec fn view(&self) -> Seq<Seq<u64>> {
        self.0@.map_values(|c: Vec<u64>| c@)
    }
}

/// Copies a column.
fn copy_column(c: &Vec<u64>) -> (r: Vec<u64>)
    ensures
        r@ == c@,
{
    let mut r: Vec<u64> = Vec::with_capacity(c.len());
    let mut i: usize = 0;
    while i < c.len()
        invariant
            i <= c@.len(),
            r@ == c@.subrange(0, i as int),
        decreases c@.len() - i,
    {
        r.push(c[i]);
        i += 1;
    }
    proof {
        assert(c@.subrange(0, c@.len() as int) == c@);
    }
    r
}

impl Matrix {
    pub open spec fn wf(&self) -> bool {
        is_rect(self@)
    }

    /// Every entry is a canonical field element.
    pub open spec fn felts(&self) -> bool {
        forall|j: int| 0 <= j < self@.len() ==> all_felts(#[trigger] self@[j])
    }

    pub open spec fn rows_spec(&self) -> nat {
        self@[0].len()
    }

    pub fn new(cols: Vec<Vec<u64>>) -> (r: Self)
        requires
            is_rect(cols@.map_values(|c: Vec<u64>| c@)),
        ensures
            r@ == cols@.map_values(|c: Vec<u64>| c@),
            r.wf(),
    {
        Matrix(cols)
    }

    pub fn num_rows(&self) -> (r: usize)
        requires
            self.wf(),
        ensures
            r == self.rows_spec(),
    {
        self.0[0].len()
    }

    pub fn num_cols(&self) -> (r: usize)
        ensures
            r == self@.len(),
    {
        self.0.len()
    }

    /// Copies row `row_idx` into `out`, which holds one entry per column.
    pub fn read_row(&self, row_idx: usize, out: &mut Vec<u64>)
        requires
            self.wf(),
            row_idx < self.rows_spec(),
            old(out)@.len() == self@.len(),
        ensures
            final(out)@ == row_of(self@, row_idx as int),
    {
        let mut j: usize = 0;
        while j < self.0.len()
            invariant
                self.wf(),
                row_idx < self.rows_spec(),
                j <= self@.len(),
                out@.len() == self@.len(),
                forall|k: int| 0 <= k < j ==> #[trigger] out@[k] == self@[k][row_idx as int],
            decreases self@.len() - j,
        {
            assert(self@[j as int].len() == self.rows_spec());
            out.set(j, self.0[j][row_idx]);
            j += 1;
        }
        proof {
            assert(out@ =~= row_of(self@, row_idx as int));
        }
    }

    /// Row `row_idx` as a new vector.
    pub fn row(&self, row_idx: usize) -> (r: Vec<u64>)
        requires
            self.wf(),
            row_idx < self.rows_spec(),
        ensures
            r@ == row_of(self@, row_idx as int),
    {
        let mut out: Vec<u64> = Vec::with_capacity(self.0.len());
        while out.len() < self.0.len()
            invariant
                out@.len() <= self@.len(),
            decreases self@.len() - out@.len(),
        {
            out.push(0);
        }
        self.read_row(row_idx, &mut out);
        out
    }

    /// Appends the columns of `other`, which has the same number of rows.
    pub fn append(&mut self, other: Matrix)
        requires
            old(self).wf(),
            other.wf(),
            other.rows_spec() == old(self).rows_spec(),
        ensures
            final(self)@ == old(self)@ + other@,
            final(self).wf(),
    {
        let mut cols = other.0;
        let ghost a = self.0@;
        let ghost b = cols@;
        self.0.append(&mut cols);
        proof {
            assert(self@ =~= old(self)@ + other@) by {
                assert(self.0@ == a + b);
            }
        }
    }

    /// Pointwise field sum of all columns, as a one-column matrix.
    pub fn sum_columns(&self) -> (r: Matrix)
        requires
            self.wf(),
            self.felts(),
        ensures
            r.wf(),
            r@.len() == 1,
            r.rows_spec() == self.rows_spec(),
            forall|i: int| 0 <= i < self.rows_spec() ==> r@[0][i] == row_sum(self@, i, self@.len() as int),
            r.felts(),
    {
        let n = self.num_rows();
        let mut acc: Vec<u64> = Vec::with_capacity(n);
        while acc.len() < n
            invariant
                acc@.len() <= n,
                forall|i: int| 0 <= i < acc@.len() ==> acc@[i] == 0,
            decreases n - acc@.len(),
        {
            acc.push(0);
        }
        let mut j: usize = 0;
        while j < self.0.len()
            invariant
                self.wf(),
                self.felts(),
                n == self.rows_spec(),
                j <= self@.len(),
                acc@.len() == n,
                forall|i: int| 0 <= i < n ==> #[trigger] acc@[i] == row_sum(self@, i, j as int),
            decreases self@.len() - j,
        {
            let col = &self.0[j];
            assert(col@ == self@[j as int]);
            assert(all_felts(self@[j as int]));
            let mut i: usize = 0;
            while i < n
                invariant
                    self.wf(),
                    self.felts(),
                    col@ == self@[j as int],
                    col@.len() == n,
                    all_felts(col@),
                    n == self.rows_spec(),
                    j < self@.len(),
                    i <= n,
                    acc@.len() == n,
                    forall|k: int| 0 <= k < i ==> #[trigger] acc@[k] == row_sum(self@, k, j + 1),
                    forall|k: int| i <= k < n ==> #[trigger] acc@[k] == row_sum(self@, k, j as int),
                decreases n - i,
            {
                proof {
                    lemma_row_sum_felt(self@, i as int, j as int);
                    assert(is_felt(col@[i as int]));
                }
                let v = felt_add(acc[i], col[i]);
                acc.set(i, v);
                i += 1;
            }
            j += 1;
        }
        let r = Matrix(vec![acc]);
        proof {
            assert(r@ =~= seq![acc@]);
            assert forall|k: int| 0 <= k < n implies is_felt(#[trigger] acc@[k]) by {
                lemma_row_sum_felt(self@, k, self@.len() as int);
            }
        }
        r
    }
}

/// A row sum is a canonical field element.
proof fn lemma_row_sum_felt(cols: Seq<Seq<u64>>, i: int, k: int)
    ensures
        0 <= row_sum(cols, i, k) < MODULUS,
    decreases k,
{
    if k > 0 {
        lemma_row_sum_felt(cols, i, k - 1);
    }
}

/// Concatenation of the columns of several matrices.
pub open spec fn concat_cols(ms: Seq<Seq<Seq<u64>>>) -> Seq<Seq<u64>>
    decreases ms.len(),
{
    if ms.len() == 0 {
        Seq::empty()
    } else {
        concat_cols(ms.drop_last()) + ms.last()
    }
}

impl Matrix {
    /// Joins matrices with one row count column-wise, in order.
    pub fn join(matrices: Vec<Matrix>) -> (r: Matrix)
        requires
            matrices@.len() >= 1,
            forall|k: int| 0 <= k < matrices@.len() ==> (#[trigger] matrices@[k]).wf(),
            forall|k: int| 0 <= k < matrices@.len() ==> (#[trigger] matrices@[k]).rows_spec()
                == matrices@[0].rows_spec(),
        ensures
            r.wf(),
            r.rows_spec() == matrices@[0].rows_spec(),
            r@ == concat_cols(matrices@.map_values(|m: Matrix| m@)),
    {
        let ghost views = matrices@.map_values(|m: Matrix| m@);
        let ghost rows = matrices@[0].rows_spec();
        let total = matrices.len();
        let mut ms = matrices;
        // take the matrices out front to back
        let mut result = ms.remove(0);
        proof {
            let s1 = views.subrange(0, 1);
            assert(s1.drop_last() =~= Seq::<Seq<Seq<u64>>>::empty());
            assert(concat_cols(s1.drop_last()) == Seq::<Seq<u64>>::empty());
            assert(s1.last() == views[0]);
            assert(Seq::<Seq<u64>>::empty() + views[0] =~= views[0]);
            assert(result == matrices@[0]);
        }
        let mut k: usize = 1;
        while ms.len() > 0
            invariant
                1 <= k <= views.len(),
                views.len() == total,
                ms@.len() == views.len() - k,
                forall|t: int| 0 <= t < ms@.len() ==> #[trigger] ms@[t] == matrices@[k + t],
                forall|t: int| 0 <= t < matrices@.len() ==> (#[trigger] matrices@[t]).wf(),
                forall|t: int| 0 <= t < matrices@.len() ==> (#[trigger] matrices@[t]).rows_spec() == rows,
                views == matrices@.map_values(|m: Matrix| m@),
                result.wf(),
                result.rows_spec() == rows,
                result@ == concat_cols(views.subrange(0, k as int)),
            decreases ms@.len(),
        {
            let next = ms.remove(0);
            assert(next == matrices@[k as int]);
            result.append(next);
            proof {
                assert(views.subrange(0, k + 1).drop_last() =~= views.subrange(0, k as int));
            }
            k += 1;
        }
        proof {
            assert(views.subrange(0, views.len() as int) =~= views);
        }
        result
    }

    /// Commits to the rows of the matrix.
    pub fn commit_to_rows(&self) -> (r: MatrixMerkleTreeImpl)
        requires
            self.wf(),
            self.rows_spec() >= 2,
            is_pow2(self.rows_spec() as int),
        ensures
            r.commits_to(self@),
    {
        MatrixMerkleTreeImpl::from_matrix(self)
    }
}

/// Digests of `len` consecutive rows of `m` from row `start` on.
pub open spec fn row_hash_range(m: Seq<Seq<u64>>, start: int, len: int) -> Seq<Seq<u8>> {
    Seq::new(len as nat, |i: int| row_hash(row_of(m, start + i)))
}

/// Digests of rows `start .. n` of `m`, computed chunk by chunk, each chunk
/// holding `chunk_size` rows but the last.
pub open spec fn chunked_row_hashes(m: Seq<Seq<u64>>, chunk_size: int, start: int, n: int) -> Seq<
    Seq<u8>,
>
    decreases n - start,
{
    if chunk_size <= 0 || start >= n {
        Seq::empty()
    } else {
        let len = if n - start < chunk_size {
            n - start
        } else {
            chunk_size
        };
        row_hash_range(m, start, len) + chunked_row_hashes(m, chunk_size, start + len, n)
    }
}

/// Hashing rows chunk by chunk, with any chunk size, gives the digests of all
/// rows in order, as hashing them one by one does.
pub proof fn lemma_chunked_row_hashes(m: Seq<Seq<u64>>, chunk_size: int, start: int, n: int)
    requires
        chunk_size >= 1,
        0 <= start <= n,
    ensures
        chunked_row_hashes(m, chunk_size, start, n) == row_hash_range(m, start, n - start),
    decreases n - start,
{
    if start < n {
        let len = if n - start < chunk_size {
            n - start
        } else {
            chunk_size
        };
        lemma_chunked_row_hashes(m, chunk_size, start + len, n);
        assert(row_hash_range(m, start, len) + row_hash_range(m, start + len, n - start - len) =~= row_hash_range(
            m,
            start,
            n - start,
        ));
    } else {
        assert(row_hash_range(m, start, 0) =~= Seq::<Seq<u8>>::empty());
    }
}

/// Hashes every row, working through the rows in chunks of `chunk_size`; the
/// result is the same for every chunk size.
pub fn hash_rows_chunked(matrix: &Matrix, chunk_size: usize) -> (r: Vec<HashOutput>)
    requires
        matrix.wf(),
        chunk_size >= 1,
    ensures
        r@.len() == matrix.rows_spec(),
        forall|i: int| 0 <= i < r@.len() ==> (#[trigger] r@[i])@ == row_hash(row_of(matrix@, i)),
        digests_view(r@) == chunked_row_hashes(matrix@, chunk_size as int, 0, matrix.rows_spec() as int),
{
    let num_rows = matrix.num_rows();
    let num_cols = matrix.num_cols();
    let mut row_hashes: Vec<HashOutput> = Vec::with_capacity(num_rows);
    while row_hashes.len() < num_rows
        invariant
            row_hashes@.len() <= num_rows,
        decreases num_rows - row_hashes@.len(),
    {
        row_hashes.push([0u8; 32]);
    }
    let mut offset: usize = 0;
    while offset < num_rows
        invariant
            matrix.wf(),
            num_rows == matrix.rows_spec(),
            num_cols == matrix@.len(),
            offset <= num_rows,
            chunk_size >= 1,
            row_hashes@.len() == num_rows,
            forall|i: int| 0 <= i < offset ==> (#[trigger] row_hashes@[i])@ == row_hash(row_of(matrix@, i)),
        decreases num_rows - offset,
    {
        let end: usize = if num_rows - offset < chunk_size { num_rows } else { offset + chunk_size };
        let mut row_buffer: Vec<u64> = Vec::with_capacity(num_cols);
        while row_buffer.len() < num_cols
            invariant
                row_buffer@.len() <= num_cols,
            decreases num_cols - row_buffer@.len(),
        {
            row_buffer.push(0);
        }
        let mut i: usize = offset;
        while i < end
            invariant
                matrix.wf(),
                num_rows == matrix.rows_spec(),
                num_cols == matrix@.len(),
                offset <= i <= end <= num_rows,
                row_buffer@.len() == num_cols,
                row_hashes@.len() == num_rows,
                forall|t: int| 0 <= t < i ==> (#[trigger] row_hashes@[t])@ == row_hash(row_of(matrix@, t)),
            decreases end - i,
        {
            matrix.read_row(i, &mut row_buffer);
            let h = hash_row(row_buffer.as_slice());
            row_hashes.set(i, h);
            i += 1;
        }
        offset = end;
    }
    proof {
        lemma_chunked_row_hashes(matrix@, chunk_size as int, 0, num_rows as int);
        assert(digests_view(row_hashes@) =~= row_hash_range(matrix@, 0, num_rows as int));
    }
    row_hashes
}

/// Relies on rayon::current_num_threads: the size of the current thread pool.
#[verifier::external_body]
fn current_num_threads() -> (r: usize) {
    rayon::current_num_threads()
}

/// The least power of two that is at least `n`, or the largest power of two
/// that a `usize` holds when there is none.
fn next_power_of_two(n: usize) -> (r: usize)
    ensures
        r >= 1,
        is_pow2(r as int),
{
    let mut p: usize = 1;
    while p < n && p <= usize::MAX / 2
        invariant
            p >= 1,
            is_pow2(p as int),
        decreases usize::MAX - p,
    {
        proof {
            assert((2 * p) as int / 2 == p);
        }
        p = p * 2;
    }
    p
}

/// Hashes every row, in chunks of at least 128 rows sized to the thread pool.
pub fn hash_rows(matrix: &Matrix) -> (r: Vec<HashOutput>)
    requires
        matrix.wf(),
    ensures
        r@.len() == matrix.rows_spec(),
        forall|i: int| 0 <= i < r@.len() ==> (#[trigger] r@[i])@ == row_hash(row_of(matrix@, i)),
{
    let threads = next_power_of_two(current_num_threads());
    let per_thread = matrix.num_rows() / threads;
    let chunk_size: usize = if per_thread > 128 { per_thread } else { 128 };
    hash_rows_chunked(matrix, chunk_size)
}

/// A Merkle tree that commits to the rows of a matrix.
pub trait MatrixMerkleTree: MerkleTree {
    /// The tree commits to the rows of `m`.
    spec fn commits_to(&self, m: Seq<Seq<u64>>) -> bool;

    /// `row` with proof `p` for row `row_idx` is accepted against `root`.
    spec fn row_accepts(root: Self::Root, row_idx: int, row: Seq<u64>, p: Self::Proof) -> bool;

    /// Commits to the rows of `m`, whose row count is a power of two, at least 2.
    fn from_matrix(m: &Matrix) -> (r: Self)
        requires
            m.wf(),
            m.rows_spec() >= 2,
            is_pow2(m.rows_spec() as int),
        ensures
            r.valid(),
            r.commits_to(m@),
    ;

    fn prove_row(&self, row_idx: usize) -> (r: Result<Self::Proof, Error>)
        requires
            self.valid(),
        ensures
            row_idx >= self.leaf_count() <==> r == Err::<Self::Proof, Error>(
                Error::LeafIndexOutOfBounds { i: row_idx, n: self.leaf_count() as usize },
            ),
            row_idx < self.leaf_count() ==> r is Ok && self.proves(row_idx as int, r->Ok_0),
    ;

    fn verify_row(root: &Self::Root, row_idx: usize, row: &[u64], proof: &Self::Proof) -> (r: Result<
        (),
        Error,
    >)
        ensures
            r is Ok <==> Self::row_accepts(*root, row_idx as int, row@, *proof),
            r is Err ==> r == Err::<(), Error>(Error::InvalidProof),
    ;
}

/// Merkle tree over the digests of the rows of a matrix.
#[derive(Clone, Debug)]
pub struct MatrixMerkleTreeImpl {
    merkle_tree: MerkleTreeImpl<HashedLeafConfig>,
}

impl MatrixMerkleTreeImpl {
    pub closed spec fn tree(&self) -> MerkleTreeImpl<HashedLeafConfig> {
        self.merkle_tree
    }

    fn new(leaves: Vec<HashOutput>) -> (r: Result<Self, Error>)
        ensures
            r is Ok <==> leaves@.len() >= 2 && is_pow2(leaves@.len() as int),
            r is Ok ==> r->Ok_0.tree().wf() && r->Ok_0.tree().leaves_view() == leaves@,
    {
        match MerkleTreeImpl::new(leaves) {
            Ok(merkle_tree) => Ok(Self { merkle_tree }),
            Err(e) => Err(e),
        }
    }
}

impl MerkleTree for MatrixMerkleTreeImpl {
    type Proof = MerkleProof<HashedLeafConfig>;
    type Root = HashOutput;

    open spec fn valid(&self) -> bool {
        self.tree().wf()
    }

    open spec fn spec_root(&self) -> HashOutput {
        self.tree().spec_root()
    }

    open spec fn leaf_count(&self) -> nat {
        self.tree().leaves_view().len()
    }

    open spec fn proves(&self, index: int, p: MerkleProof<HashedLeafConfig>) -> bool {
        is_proof_for::<HashedLeafConfig>(self.tree().leaves_view(), index, p)
    }

    open spec fn spec_accepts(root: HashOutput, p: MerkleProof<HashedLeafConfig>, index: int) -> bool {
        accepts::<HashedLeafConfig>(root@, p, index)
    }

    fn root(&self) -> (r: &HashOutput) {
        self.merkle_tree.root()
    }

    fn prove(&self, index: usize) -> (r: Result<MerkleProof<HashedLeafConfig>, Error>) {
        self.merkle_tree.prove(index)
    }

    fn verify(root: &HashOutput, proof: &MerkleProof<HashedLeafConfig>, index: usize) -> (r: Result<(), Error>) {
        MerkleTreeImpl::verify(root, proof, index)
    }
}

impl MatrixMerkleTree for MatrixMerkleTreeImpl {
    /// The tree is well formed and its leaves are the row digests of `m`.
    open spec fn commits_to(&self, m: Seq<Seq<u64>>) -> bool {
        &&& self.tree().wf()
        &&& self.tree().leaves_view().len() == m[0].len()
        &&& forall|i: int| 0 <= i < m[0].len() ==> (#[trigger] self.tree().leaves_view()[i])@ == row_hash(
            row_of(m, i),
        )
    }

    /// The row hashes to the proof's leaf and the proof is accepted.
    open spec fn row_accepts(
        root: HashOutput,
        row_idx: int,
        row: Seq<u64>,
        p: MerkleProof<HashedLeafConfig>,
    ) -> bool {
        p.leaf_view()@ == row_hash(row) && accepts::<HashedLeafConfig>(root@, p, row_idx)
    }

    fn from_matrix(m: &Matrix) -> (r: Self) {
        let leaves = hash_rows(m);
        Self::new(leaves).unwrap()
    }

    fn prove_row(&self, row_idx: usize) -> (r: Result<MerkleProof<HashedLeafConfig>, Error>) {
        self.prove(row_idx)
    }

    fn verify_row(
        root: &HashOutput,
        row_idx: usize,
        row: &[u64],
        proof: &MerkleProof<HashedLeafConfig>,
    ) -> (r: Result<(), Error>) {
        let row_hash = hash_row(row);
        if crate::merkle::digest_eq(proof.leaf(), &row_hash) {
            Self::verify(root, proof, row_idx)
        } else {
            Err(Error::InvalidProof)
        }
    }
}

/// A row of a committed matrix, with the proof that the tree produces for its
/// index, passes both checks of `verify_row`: the proof's leaf is the row's
/// digest, and the proof is accepted against the root at that index.
pub proof fn lemma_row_round_trip(
    tree: MatrixMerkleTreeImpl,
    m: Seq<Seq<u64>>,
    r: usize,
    proof: MerkleProof<HashedLeafConfig>,
)
    requires
        tree.commits_to(m),
        r < m[0].len(),
        tree.proves(r as int, proof),
    ensures
        proof.leaf_view()@ == row_hash(row_of(m, r as int)),
        MatrixMerkleTreeImpl::row_accepts(tree.spec_root(), r as int, row_of(m, r as int), proof),
{
    lemma_merkle_soundness::<HashedLeafConfig>(tree.tree(), r, proof);
}

/// A row whose digest differs from that of row `r` fails the leaf check of
/// `verify_row` with the proof for `r`.
pub proof fn lemma_row_with_other_digest_rejected(
    tree: MatrixMerkleTreeImpl,
    m: Seq<Seq<u64>>,
    r: usize,
    proof: MerkleProof<HashedLeafConfig>,
    other: Seq<u64>,
)
    requires
        tree.commits_to(m),
        r < m[0].len(),
        is_proof_for::<HashedLeafConfig>(tree.tree().leaves_view(), r as int, proof),
        row_hash(other) != row_hash(row_of(m, r as int)),
    ensures
        proof.leaf_view()@ != row_hash(other),
{
}

/// The tree over hashed leaves depends on the leaves' bytes alone.
proof fn lemma_node_depends_on_leaf_bytes(l1: Seq<HashOutput>, l2: Seq<HashOutput>, i: int)
    requires
        l1.len() == l2.len(),
        forall|k: int| 0 <= k < l1.len() ==> (#[trigger] l1[k])@ == l2[k]@,
    ensures
        node_spec::<HashedLeafConfig>(l1, i) == node_spec::<HashedLeafConfig>(l2, i),
    decreases l1.len() - i,
{
    let n = l1.len() as int;
    if 1 <= i < n && 2 * i < n {
        lemma_node_depends_on_leaf_bytes(l1, l2, 2 * i);
        lemma_node_depends_on_leaf_bytes(l1, l2, 2 * i + 1);
    } else if 1 <= i < n {
        assert(l1[2 * i - n]@ == l2[2 * i - n]@);
        assert(l1[2 * i - n + 1]@ == l2[2 * i - n + 1]@);
    }
}

/// Two trees that commit to the rows of the same matrix have the same root.
pub proof fn lemma_commitment_determinism(t1: MatrixMerkleTreeImpl, t2: MatrixMerkleTreeImpl, m: Seq<Seq<u64>>)
    requires
        t1.commits_to(m),
        t2.commits_to(m),
    ensures
        t1.spec_root()@ == t2.spec_root()@,
{
    lemma_root_digest::<HashedLeafConfig>(t1.tree());
    lemma_root_digest::<HashedLeafConfig>(t2.tree());
    let l1 = t1.tree().leaves_view();
    let l2 = t2.tree().leaves_view();
    assert forall|k: int| 0 <= k < l1.len() implies (#[trigger] l1[k])@ == l2[k]@ by {
        assert(l1[k]@ == row_hash(row_of(m, k)));
        assert(l2[k]@ == row_hash(row_of(m, k)));
    }
    lemma_node_depends_on_leaf_bytes(l1, l2, 1);
}

} // verus!
