use vstd::prelude::*;
use crate::hash::{hash_concat, hash_pair, sha256_of, HashOutput};

verus! {

/// Merkle tree error
#[derive(Debug, Clone, Copy, PartialEq, Eq, Structural)]
pub enum Error {
    TooFewLeaves { expected: usize, actual: usize },
    NumberOfLeavesNotPowerOfTwo { n: usize },
    LeafIndexOutOfBounds { i: usize, n: usize },
    InvalidProof,
}

/// `n` is a power of two.
pub open spec fn is_pow2(n: int) -> bool
    decreases n,
{
    if n <= 1 {
        n == 1
    } else {
        n % 2 == 0 && is_pow2(n / 2)
    }
}

/// The index of the other child of the same parent.
pub open spec fn sibling_index(i: int) -> int {
    if i % 2 == 0 {
        i + 1
    } else {
        i - 1
    }
}

/// Leaf policy of a Merkle tree: the leaf type and how a pair of leaves is hashed
/// into the layer just above the leaves.
pub trait MerkleTreeConfig {
    type Leaf: Copy + PartialEq + Eq + core::fmt::Debug;

    /// The digest of a pair of leaves.
    spec fn leaf_pair_hash(l0: Self::Leaf, l1: Self::Leaf) -> Seq<u8>;

    fn hash_leaves(l0: &Self::Leaf, l1: &Self::Leaf) -> (r: HashOutput)
        ensures
            r@ == Self::leaf_pair_hash(*l0, *l1),
    ;
}

/// Leaves that are digests themselves: `H_leaf(a, b) = SHA-256(a ‖ b)`.
#[derive(Clone, Copy, Debug, PartialEq, Eq)]
pub struct HashedLeafConfig;

impl MerkleTreeConfig for HashedLeafConfig {
    type Leaf = HashOutput;

    open spec fn leaf_pair_hash(l0: HashOutput, l1: HashOutput) -> Seq<u8> {
        hash_pair(l0@, l1@)
    }

    fn hash_leaves(l0: &HashOutput, l1: &HashOutput) -> (r: HashOutput) {
        hash_concat(l0, l1)
    }
}

/// Big-endian encoding of a `u32`.
pub open spec fn u32_be_bytes(x: u32) -> Seq<u8> {
    seq![(x >> 24u32) as u8, (x >> 16u32) as u8, (x >> 8u32) as u8, x as u8]
}

/// Raw `u32` leaves: `H_leaf(a, b) = SHA-256(be(a) ‖ be(b))`.
#[derive(Clone, Copy, Debug, PartialEq, Eq)]
pub struct UnhashedLeafConfig;

impl MerkleTreeConfig for UnhashedLeafConfig {
    type Leaf = u32;

    open spec fn leaf_pair_hash(l0: u32, l1: u32) -> Seq<u8> {
        sha256_of(u32_be_bytes(l0) + u32_be_bytes(l1))
    }

    fn hash_leaves(l0: &u32, l1: &u32) -> (r: HashOutput) {
        let a: [u8; 4] = [(*l0 >> 24u32) as u8, (*l0 >> 16u32) as u8, (*l0 >> 8u32) as u8, *l0 as u8];
        let b: [u8; 4] = [(*l1 >> 24u32) as u8, (*l1 >> 16u32) as u8, (*l1 >> 8u32) as u8, *l1 as u8];
        proof {
            assert(a@ =~= u32_be_bytes(*l0));
            assert(b@ =~= u32_be_bytes(*l1));
        }
        hash_concat(&a, &b)
    }
}

/// The digest of node `i` of the tree over `leaves`, where node 1 is the root,
/// node `i` has children `2i` and `2i + 1`, and nodes `n/2 .. n` hash leaf pairs.
pub open spec fn node_spec<C: MerkleTreeConfig>(leaves: Seq<C::Leaf>, i: int) -> Seq<u8>
    decreases leaves.len() - i,
{
    let n = leaves.len() as int;
    if i <= 0 || i >= n {
        Seq::empty()
    } else if 2 * i >= n {
        C::leaf_pair_hash(leaves[2 * i - n], leaves[2 * i - n + 1])
    } else {
        hash_pair(node_spec::<C>(leaves, 2 * i), node_spec::<C>(leaves, 2 * i + 1))
    }
}

/// The co-path of node `idx`: the digest of its sibling, then those of the
/// siblings of its ancestors, up to but excluding the root.
pub open spec fn path_spec<C: MerkleTreeConfig>(leaves: Seq<C::Leaf>, idx: int) -> Seq<Seq<u8>>
    decreases idx,
{
    if idx <= 1 {
        Seq::empty()
    } else {
        seq![node_spec::<C>(leaves, sibling_index(idx))] + path_spec::<C>(leaves, idx / 2)
    }
}

/// Climbs from digest `h` at position `index` of its layer along `path`.
pub open spec fn fold_path(h: Seq<u8>, path: Seq<Seq<u8>>, index: int) -> Seq<u8>
    decreases path.len(),
{
    if path.len() == 0 {
        h
    } else {
        let next = if index % 2 == 0 {
            hash_pair(h, path[0])
        } else {
            hash_pair(path[0], h)
        };
        fold_path(next, path.drop_first(), index / 2)
    }
}

/// The digest that a proof for leaf position `index` climbs to.
pub open spec fn proof_root<C: MerkleTreeConfig>(
    leaf: C::Leaf,
    sibling: C::Leaf,
    path: Seq<Seq<u8>>,
    index: int,
) -> Seq<u8> {
    let h0 = if index % 2 == 0 {
        C::leaf_pair_hash(leaf, sibling)
    } else {
        C::leaf_pair_hash(sibling, leaf)
    };
    fold_path(h0, path, index / 2)
}

pub open spec fn digests_view(p: Seq<HashOutput>) -> Seq<Seq<u8>> {
    p.map_values(|h: HashOutput| h@)
}

/// Inclusion proof of one leaf: the leaf, its sibling, and the co-path digests
/// from the level above the leaves' parent up to, but excluding, the root.
#[derive(Clone, Debug, PartialEq, Eq)]
pub struct MerkleProof<C: MerkleTreeConfig> {
    path: Vec<HashOutput>,
    sibling: C::Leaf,
    leaf: C::Leaf,
}

impl<C: MerkleTreeConfig> MerkleProof<C> {
    pub closed spec fn leaf_view(&self) -> C::Leaf {
        self.leaf
    }

    pub closed spec fn sibling_view(&self) -> C::Leaf {
        self.sibling
    }

    pub closed spec fn path_view(&self) -> Seq<HashOutput> {
        self.path@
    }

    pub fn new(leaf: C::Leaf, sibling: C::Leaf, path: Vec<HashOutput>) -> (r: Self)
        ensures
            r.leaf_view() == leaf,
            r.sibling_view() == sibling,
            r.path_view() == path@,
    {
        Self { path, sibling, leaf }
    }

    pub fn height(&self) -> (r: usize)
        requires
            self.path_view().len() < usize::MAX,
        ensures
            r == self.path_view().len() + 1,
    {
        self.path.len() + 1
    }

    pub fn path(&self) -> (r: &[HashOutput])
        ensures
            r@ == self.path_view(),
    {
        self.path.as_slice()
    }

    pub fn sibling(&self) -> (r: &C::Leaf)
        ensures
            *r == self.sibling_view(),
    {
        &self.sibling
    }

    pub fn leaf(&self) -> (r: &C::Leaf)
        ensures
            *r == self.leaf_view(),
    {
        &self.leaf
    }
}

/// `p` is the proof for position `index` of the tree over `leaves`.
pub open spec fn is_proof_for<C: MerkleTreeConfig>(leaves: Seq<C::Leaf>, index: int, p: MerkleProof<C>) -> bool {
    &&& p.leaf_view() == leaves[index]
    &&& p.sibling_view() == leaves[sibling_index(index)]
    &&& digests_view(p.path_view()) == path_spec::<C>(leaves, (index + leaves.len()) / 2)
}

/// `proof` for position `index` is accepted against `root`.
pub open spec fn accepts<C: MerkleTreeConfig>(root: Seq<u8>, proof: MerkleProof<C>, index: int) -> bool {
    root == proof_root::<C>(proof.leaf_view(), proof.sibling_view(), digests_view(proof.path_view()), index)
}

/// Vector commitment: a root, inclusion proofs, and their verification.
pub trait MerkleTree: Sized {
    type Proof;
    type Root;

    /// The tree is well formed.
    spec fn valid(&self) -> bool;

    /// The root of the tree.
    spec fn spec_root(&self) -> Self::Root;

    /// The number of leaves.
    spec fn leaf_count(&self) -> nat;

    /// `p` is the proof of this tree for leaf position `index`.
    spec fn proves(&self, index: int, p: Self::Proof) -> bool;

    /// `p` for leaf position `index` is accepted against `root`.
    spec fn spec_accepts(root: Self::Root, p: Self::Proof, index: int) -> bool;

    /// Returns the root of the merkle tree
    fn root(&self) -> (r: &Self::Root)
        requires
            self.valid(),
        ensures
            *r == self.spec_root(),
    ;

    /// Generates a merkle proof
    ///
    /// # Errors
    ///
    /// Returns an error if the leaf index is out of bounds.
    fn prove(&self, index: usize) -> (r: Result<Self::Proof, Error>)
        requires
            self.valid(),
        ensures
            index >= self.leaf_count() <==> r == Err::<Self::Proof, Error>(
                Error::LeafIndexOutOfBounds { i: index, n: self.leaf_count() as usize },
            ),
            index < self.leaf_count() ==> r is Ok && self.proves(index as int, r->Ok_0),
    ;

    /// Verifies a merkle proof
    ///
    /// # Errors
    ///
    /// This function returns an error if the proof fails verification.
    fn verify(root: &Self::Root, proof: &Self::Proof, index: usize) -> (r: Result<(), Error>)
        ensures
            r is Ok <==> Self::spec_accepts(*root, *proof, index as int),
            r is Err ==> r == Err::<(), Error>(Error::InvalidProof),
    ;
}

/// Merkle tree implemented as a full power-of-two arity tree: `nodes[1]` is
/// the root, `nodes[i]` has children `nodes[2i]` and `nodes[2i + 1]`, and
/// `nodes[n/2 .. n]` hash pairs of leaves.
#[derive(Clone, Debug)]
pub struct MerkleTreeImpl<C: MerkleTreeConfig> {
    nodes: Vec<HashOutput>,
    leaves: Vec<C::Leaf>,
}

/// Compares two digests byte by byte.
pub fn digest_eq(a: &HashOutput, b: &HashOutput) -> (r: bool)
    ensures
        r == (a@ == b@),
{
    let mut i: usize = 0;
    while i < 32
        invariant
            i <= 32,
            forall|j: int| 0 <= j < i ==> a@[j] == b@[j],
        decreases 32 - i,
    {
        if a[i] != b[i] {
            return false;
        }
        i += 1;
    }
    proof {
        assert(a@ =~= b@);
    }
    true
}

/// Decides whether `n` is a power of two.
pub fn is_power_of_two(n: usize) -> (r: bool)
    ensures
        r == is_pow2(n as int),
{
    if n == 0 {
        return false;
    }
    let mut m: usize = n;
    while m > 1 && m % 2 == 0
        invariant
            m >= 1,
            is_pow2(n as int) == is_pow2(m as int),
        decreases m,
    {
        m = m / 2;
    }
    m == 1
}


impl<C: MerkleTreeConfig> MerkleTreeImpl<C> {
    /// The leaves the tree commits to.
    pub closed spec fn leaves_view(&self) -> Seq<C::Leaf> {
        self.leaves@
    }

    /// The tree holds a power-of-two number `n >= 2` of leaves and, at each
    /// index `1 <= i < n`, the digest of node `i`.
    pub closed spec fn wf(&self) -> bool {
        let n = self.leaves@.len() as int;
        &&& n >= 2
        &&& is_pow2(n)
        &&& self.nodes@.len() == n
        &&& forall|i: int| 1 <= i < n ==> #[trigger] self.nodes@[i]@ == node_spec::<C>(self.leaves@, i)
    }

    /// The root digest of a well-formed tree.
    pub open spec fn root_view(&self) -> Seq<u8> {
        node_spec::<C>(self.leaves_view(), 1)
    }

    /// # Errors
    ///
    /// This function will return an error if:
    /// * there are less than two leaves
    /// * the number of leaves is not a power of two
    pub fn new(leaves: Vec<C::Leaf>) -> (r: Result<Self, Error>)
        ensures
            leaves@.len() < 2 <==> r == Err::<Self, Error>(
                Error::TooFewLeaves { expected: 2, actual: leaves@.len() as usize },
            ),
            leaves@.len() >= 2 && !is_pow2(leaves@.len() as int) <==> r == Err::<Self, Error>(
                Error::NumberOfLeavesNotPowerOfTwo { n: leaves@.len() as usize },
            ),
            r is Ok <==> leaves@.len() >= 2 && is_pow2(leaves@.len() as int),
            r is Ok ==> r->Ok_0.wf() && r->Ok_0.leaves_view() == leaves@,
    {
        let n = leaves.len();
        if n < 2 {
            return Err(Error::TooFewLeaves { expected: 2, actual: n });
        } else if !is_power_of_two(n) {
            return Err(Error::NumberOfLeavesNotPowerOfTwo { n });
        }
        let nodes = build_merkle_nodes_default::<C>(&leaves);
        Ok(Self { nodes, leaves })
    }

    /// Number of leaves.
    pub fn num_leaves(&self) -> (r: usize)
        ensures
            r == self.leaves_view().len(),
    {
        self.leaves.len()
    }
}

impl<C: MerkleTreeConfig> MerkleTree for MerkleTreeImpl<C> {
    type Proof = MerkleProof<C>;
    type Root = HashOutput;

    open spec fn valid(&self) -> bool {
        self.wf()
    }

    closed spec fn spec_root(&self) -> HashOutput {
        self.nodes@[1]
    }

    open spec fn leaf_count(&self) -> nat {
        self.leaves_view().len()
    }

    open spec fn proves(&self, index: int, p: MerkleProof<C>) -> bool {
        is_proof_for::<C>(self.leaves_view(), index, p)
    }

    open spec fn spec_accepts(root: HashOutput, p: MerkleProof<C>, index: int) -> bool {
        accepts::<C>(root@, p, index)
    }

    /// Returns the root of the merkle tree
    fn root(&self) -> (r: &HashOutput)
    {
        &self.nodes[1]
    }

    /// Generates a merkle proof
    ///
    /// # Errors
    ///
    /// Returns an error if the leaf index is out of bounds.
    fn prove(&self, index: usize) -> (r: Result<MerkleProof<C>, Error>)
    {
        let n = self.leaves.len();
        if index >= n {
            return Err(Error::LeafIndexOutOfBounds { n, i: index });
        }
        let leaf = self.leaves[index];
        let sib: usize = if index % 2 == 0 { index + 1 } else { index - 1 };
        let sibling = self.leaves[sib];

        let mut path: Vec<HashOutput> = Vec::new();
        let mut idx: usize = index / 2 + n / 2;
        let ghost start: int = idx as int;
        proof {
            assert(start == (index as int + n as int) / 2);
        }
        while idx > 1
            invariant
                self.wf(),
                n == self.leaves@.len(),
                1 <= idx < n,
                digests_view(path@) + path_spec::<C>(self.leaves@, idx as int) == path_spec::<C>(
                    self.leaves@,
                    start,
                ),
            decreases idx,
        {
            let s: usize = if idx % 2 == 0 { idx + 1 } else { idx - 1 };
            let d = self.nodes[s];
            let ghost old_path = path@;
            path.push(d);
            proof {
                assert(digests_view(path@) =~= digests_view(old_path) + seq![d@]);
                assert(d@ == node_spec::<C>(self.leaves@, sibling_index(idx as int)));
                assert(path_spec::<C>(self.leaves@, idx as int) == seq![d@] + path_spec::<C>(
                    self.leaves@,
                    idx as int / 2,
                ));
                assert(digests_view(old_path) + (seq![d@] + path_spec::<C>(self.leaves@, idx as int / 2))
                    =~= digests_view(path@) + path_spec::<C>(self.leaves@, idx as int / 2));
            }
            idx = idx / 2;
        }
        proof {
            assert(digests_view(path@) + path_spec::<C>(self.leaves@, idx as int) =~= digests_view(path@));
        }
        Ok(MerkleProof { path, sibling, leaf })
    }

    /// Verifies a merkle proof
    ///
    /// # Errors
    ///
    /// This function returns an error if the proof fails verification.
    fn verify(root: &HashOutput, proof: &MerkleProof<C>, index: usize) -> (r: Result<(), Error>)
    {
        let mut running_hash = if index % 2 == 0 {
            C::hash_leaves(&proof.leaf, &proof.sibling)
        } else {
            C::hash_leaves(&proof.sibling, &proof.leaf)
        };
        let ghost pv = digests_view(proof.path@);
        let ghost target = proof_root::<C>(proof.leaf, proof.sibling, pv, index as int);
        let mut idx: usize = index / 2;
        let mut k: usize = 0;
        proof {
            assert(pv.skip(0) =~= pv);
        }
        while k < proof.path.len()
            invariant
                k <= proof.path@.len(),
                pv == digests_view(proof.path@),
                fold_path(running_hash@, pv.skip(k as int), idx as int) == target,
            decreases proof.path@.len() - k,
        {
            let node = &proof.path[k];
            proof {
                assert(pv.skip(k as int).drop_first() =~= pv.skip(k as int + 1));
                assert(pv.skip(k as int)[0] == node@);
            }
            if idx % 2 == 0 {
                running_hash = hash_concat(&running_hash, node);
            } else {
                running_hash = hash_concat(node, &running_hash);
            }
            idx = idx / 2;
            k += 1;
        }
        proof {
            assert(pv.skip(k as int).len() == 0);
        }
        if digest_eq(root, &running_hash) {
            Ok(())
        } else {
            Err(Error::InvalidProof)
        }
    }
}


/// The root of a well-formed tree is the digest of node 1.
pub proof fn lemma_root_digest<C: MerkleTreeConfig>(tree: MerkleTreeImpl<C>)
    requires
        tree.wf(),
    ensures
        tree.spec_root()@ == tree.root_view(),
{
}

/// Builds the node array of the tree over `leaves`: `nodes[n/2 + i]` hashes
/// leaves `2i` and `2i + 1`, `nodes[i]` hashes `nodes[2i] ‖ nodes[2i + 1]`.
fn build_merkle_nodes_default<C: MerkleTreeConfig>(leaves: &Vec<C::Leaf>) -> (nodes: Vec<HashOutput>)
    requires
        leaves@.len() >= 2,
        is_pow2(leaves@.len() as int),
    ensures
        nodes@.len() == leaves@.len(),
        forall|i: int| 1 <= i < leaves@.len() ==> #[trigger] nodes@[i]@ == node_spec::<C>(leaves@, i),
{
    let n = leaves.len();
    let half = n / 2;
    proof {
        assert(n % 2 == 0);
    }
    let mut nodes: Vec<HashOutput> = Vec::with_capacity(n);
    while nodes.len() < n
        invariant
            nodes@.len() <= n,
        decreases n - nodes@.len(),
    {
        nodes.push([0u8; 32]);
    }
    // generate first layer of nodes from leaf nodes
    let mut i: usize = 0;
    while i < half
        invariant
            n == leaves@.len(),
            half * 2 == n,
            nodes@.len() == n,
            i <= half,
            forall|j: int| half <= j < half + i ==> #[trigger] nodes@[j]@ == node_spec::<C>(leaves@, j),
        decreases half - i,
    {
        let h = C::hash_leaves(&leaves[2 * i], &leaves[2 * i + 1]);
        nodes.set(half + i, h);
        proof {
            assert(2 * (half + i) - n == 2 * i);
        }
        i += 1;
    }
    // generate remaining nodes
    let mut k: usize = half;
    while k > 1
        invariant
            n == leaves@.len(),
            half * 2 == n,
            nodes@.len() == n,
            1 <= k <= half,
            forall|j: int| k <= j < n ==> #[trigger] nodes@[j]@ == node_spec::<C>(leaves@, j),
        decreases k,
    {
        k -= 1;
        let h = hash_concat(&nodes[2 * k], &nodes[2 * k + 1]);
        nodes.set(k, h);
    }
    nodes
}


/// Climbing from node `a`, which sits at position `b` of a layer of `half`
/// nodes, along the co-path of `a` reaches the root.
proof fn lemma_climb<C: MerkleTreeConfig>(leaves: Seq<C::Leaf>, a: int, b: int, half: int)
    requires
        leaves.len() >= 2,
        1 <= a < leaves.len(),
        a == b + half,
        0 <= b < half,
        is_pow2(half),
    ensures
        fold_path(node_spec::<C>(leaves, a), path_spec::<C>(leaves, a), b) == node_spec::<C>(leaves, 1),
    decreases a,
{
    if a > 1 {
        assert(half >= 2);
        assert(half % 2 == 0 && is_pow2(half / 2));
        assert(a / 2 == b / 2 + half / 2);
        let p = path_spec::<C>(leaves, a);
        assert(p.drop_first() =~= path_spec::<C>(leaves, a / 2));
        assert(p[0] == node_spec::<C>(leaves, sibling_index(a)));
        if a % 2 == 0 {
            assert(b % 2 == 0);
            assert(2 * (a / 2) == a);
        } else {
            assert(b % 2 == 1);
            assert(2 * (a / 2) == a - 1);
        }
        lemma_climb::<C>(leaves, a / 2, b / 2, half / 2);
    }
}

/// A proof produced for position `i` of a well-formed tree, checked against the
/// tree's root at the same position, is accepted.
pub proof fn lemma_merkle_soundness<C: MerkleTreeConfig>(
    tree: MerkleTreeImpl<C>,
    i: usize,
    proof: MerkleProof<C>,
)
    requires
        tree.wf(),
        i < tree.leaves_view().len(),
        is_proof_for::<C>(tree.leaves_view(), i as int, proof),
    ensures
        accepts::<C>(tree.root_view(), proof, i as int),
        MerkleTreeImpl::<C>::spec_accepts(tree.spec_root(), proof, i as int),
{
    let leaves = tree.leaves_view();
    let n = leaves.len() as int;
    assert(n % 2 == 0 && is_pow2(n / 2));
    let a = (i as int + n) / 2;
    assert(a == i as int / 2 + n / 2);
    if i % 2 == 0 {
        assert(2 * a - n == i);
    } else {
        assert(2 * a - n == i - 1);
    }
    lemma_climb::<C>(leaves, a, i as int / 2, n / 2);
}

/// A proof that is accepted against one root is rejected against any other.
pub proof fn lemma_other_root_rejected<C: MerkleTreeConfig>(
    root: Seq<u8>,
    other: Seq<u8>,
    proof: MerkleProof<C>,
    i: int,
)
    requires
        accepts::<C>(root, proof, i),
        other != root,
    ensures
        !accepts::<C>(other, proof, i),
{
}

} // verus!
