use vstd::prelude::*;
use crate::channel::{draw, ProverChannel};
use crate::field::{all_felts, felt_mul, is_felt, MODULUS};
use crate::hash::HashOutput;
use crate::matrix::{
    concat_cols, is_rect, lemma_commitment_determinism, row_sum, Matrix, MatrixMerkleTree, MatrixMerkleTreeImpl,
};
use crate::merkle::{is_pow2, MerkleTree};

verus! {

#[derive(Debug, Clone, Copy, PartialEq, Eq, Structural)]
pub struct ProofOptions {
    pub num_queries: u8,
    pub blowup_factor: u8,
}

impl ProofOptions {
    pub fn new(num_queries: u8, blowup_factor: u8) -> (r: Self)
        ensures
            r.num_queries == num_queries,
            r.blowup_factor == blowup_factor,
    {
        ProofOptions { num_queries, blowup_factor }
    }
}

/// Shape of an execution trace.
#[derive(Debug, Clone, Copy, PartialEq, Eq, Structural)]
pub struct TraceInfo {
    pub num_base_columns: usize,
    pub num_extension_columns: usize,
    pub trace_len: usize,
}

/// A proof generated by a mini-stark prover
#[derive(Debug, Clone, PartialEq, Eq)]
pub struct Proof {
    options: ProofOptions,
    trace_info: TraceInfo,
    commitments: Vec<u64>,
}

impl Proof {
    pub closed spec fn options_view(&self) -> ProofOptions {
        self.options
    }

    pub closed spec fn trace_info_view(&self) -> TraceInfo {
        self.trace_info
    }

    pub closed spec fn commitments_view(&self) -> Seq<u64> {
        self.commitments@
    }

    pub fn options(&self) -> (r: ProofOptions)
        ensures
            r == self.options_view(),
    {
        self.options
    }

    pub fn trace_info(&self) -> (r: TraceInfo)
        ensures
            r == self.trace_info_view(),
    {
        self.trace_info
    }

    pub fn commitments(&self) -> (r: &[u64])
        ensures
            r@ == self.commitments_view(),
    {
        self.commitments.as_slice()
    }
}

/// Errors that can occur during the proving stage
#[derive(Debug, Clone, Copy, PartialEq, Eq, Structural)]
pub enum ProvingError {
    Fail,
}

/// Each column of `e` multiplied pointwise, in the field, by `d`.
pub open spec fn quotient_of(e: Seq<Seq<u64>>, d: Seq<u64>) -> Seq<Seq<u64>> {
    Seq::new(
        e.len(),
        |j: int| Seq::new(e[j].len(), |i: int| ((e[j][i] * d[i]) % (MODULUS as int)) as u64),
    )
}

/// The composition column of three constraint-evaluation matrices and their
/// divisors: row `i` is the field sum of row `i` of all quotient columns.
pub open spec fn composition_of(
    b: Seq<Seq<u64>>,
    bd: Seq<u64>,
    t: Seq<Seq<u64>>,
    td: Seq<u64>,
    m: Seq<Seq<u64>>,
    md: Seq<u64>,
    i: int,
) -> int {
    let all = quotient_of(b, bd) + quotient_of(t, td) + quotient_of(m, md);
    row_sum(all, i, all.len() as int)
}

/// `m` is a well-formed matrix of canonical field elements with `rows` rows.
pub open spec fn is_felt_matrix(m: Matrix, rows: nat) -> bool {
    m.wf() && m.felts() && m.rows_spec() == rows
}

/// Prover over a 64-bit STARK field.
pub struct Prover {
    options: ProofOptions,
}

impl Prover {
    pub closed spec fn options_view(&self) -> ProofOptions {
        self.options
    }

    pub fn new(options: ProofOptions) -> (r: Self)
        ensures
            r.options_view() == options,
    {
        Prover { options }
    }

    pub fn options(&self) -> (r: ProofOptions)
        ensures
            r == self.options_view(),
    {
        self.options
    }

    /// Divides each constraint evaluation column by its vanishing polynomial,
    /// given as the pointwise inverse `divisor`: multiplies each column by it.
    pub fn generate_quotients(&self, all_evaluations: Matrix, divisor: &Vec<u64>) -> (r: Matrix)
        requires
            is_felt_matrix(all_evaluations, divisor@.len()),
            all_felts(divisor@),
        ensures
            r@ == quotient_of(all_evaluations@, divisor@),
            is_felt_matrix(r, divisor@.len()),
    {
        let n = divisor.len();
        let ghost e = all_evaluations@;
        let cols = all_evaluations.0;
        let mut out: Vec<Vec<u64>> = Vec::with_capacity(cols.len());
        let mut j: usize = 0;
        while j < cols.len()
            invariant
                cols@.map_values(|c: Vec<u64>| c@) == e,
                is_rect(e),
                e[0].len() == n,
                forall|k: int| 0 <= k < e.len() ==> all_felts(#[trigger] e[k]),
                all_felts(divisor@),
                divisor@.len() == n,
                j <= cols@.len(),
                out@.len() == j,
                forall|k: int| 0 <= k < j ==> (#[trigger] out@[k])@ == quotient_of(e, divisor@)[k],
            decreases cols@.len() - j,
        {
            let col = &cols[j];
            assert(col@ == e[j as int]);
            assert(all_felts(col@));
            let mut q: Vec<u64> = Vec::with_capacity(n);
            let mut i: usize = 0;
            while i < n
                invariant
                    col@ == e[j as int],
                    col@.len() == n,
                    all_felts(col@),
                    all_felts(divisor@),
                    divisor@.len() == n,
                    i <= n,
                    q@.len() == i,
                    forall|k: int| 0 <= k < i ==> #[trigger] q@[k] == ((col@[k] * divisor@[k]) % (
                    MODULUS as int)) as u64,
                decreases n - i,
            {
                assert(is_felt(col@[i as int]) && is_felt(divisor@[i as int]));
                q.push(felt_mul(col[i], divisor[i]));
                i += 1;
            }
            proof {
                assert(q@ =~= quotient_of(e, divisor@)[j as int]);
            }
            out.push(q);
            j += 1;
        }
        let r = Matrix(out);
        proof {
            assert(r@ =~= quotient_of(e, divisor@));
            assert forall|k: int| 0 <= k < r@.len() implies all_felts(#[trigger] r@[k]) by {
                assert forall|i: int| 0 <= i < r@[k].len() implies is_felt(#[trigger] r@[k][i]) by {
                    assert(r@[k][i] == ((e[k][i] * divisor@[i]) % (MODULUS as int)) as u64);
                }
            }
        }
        r
    }

    /// Builds a commitment to the combined constraint quotient evaluations:
    /// the quotients of the boundary, transition and terminal evaluations are
    /// joined and summed into the composition column, whose rows are committed.
    pub fn build_constraint_commitment(
        &self,
        boundary_constraint_evals: Matrix,
        boundary_divisor: &Vec<u64>,
        transition_constraint_evals: Matrix,
        transition_divisor: &Vec<u64>,
        terminal_constraint_evals: Matrix,
        terminal_divisor: &Vec<u64>,
    ) -> (r: (Matrix, MatrixMerkleTreeImpl))
        requires
            boundary_divisor@.len() >= 2,
            is_pow2(boundary_divisor@.len() as int),
            is_felt_matrix(boundary_constraint_evals, boundary_divisor@.len()),
            is_felt_matrix(transition_constraint_evals, boundary_divisor@.len()),
            is_felt_matrix(terminal_constraint_evals, boundary_divisor@.len()),
            transition_divisor@.len() == boundary_divisor@.len(),
            terminal_divisor@.len() == boundary_divisor@.len(),
            all_felts(boundary_divisor@),
            all_felts(transition_divisor@),
            all_felts(terminal_divisor@),
        ensures
            r.0@.len() == 1,
            is_felt_matrix(r.0, boundary_divisor@.len()),
            forall|i: int| 0 <= i < boundary_divisor@.len() ==> #[trigger] r.0@[0][i] == composition_of(
                boundary_constraint_evals@,
                boundary_divisor@,
                transition_constraint_evals@,
                transition_divisor@,
                terminal_constraint_evals@,
                terminal_divisor@,
                i,
            ),
            r.1.commits_to(r.0@),
    {
        let ghost b = boundary_constraint_evals@;
        let ghost t = transition_constraint_evals@;
        let ghost m = terminal_constraint_evals@;
        let bq = self.generate_quotients(boundary_constraint_evals, boundary_divisor);
        let tq = self.generate_quotients(transition_constraint_evals, transition_divisor);
        let mq = self.generate_quotients(terminal_constraint_evals, terminal_divisor);
        let ghost all = bq@ + tq@ + mq@;
        let parts = vec![bq, tq, mq];
        proof {
            let views = parts@.map_values(|m: Matrix| m@);
            let v2 = views.drop_last();
            let v1 = v2.drop_last();
            assert(v1.drop_last() =~= Seq::<Seq<Seq<u64>>>::empty());
            assert(concat_cols(v1.drop_last()) == Seq::<Seq<u64>>::empty());
            assert(v1.last() == bq@ && v2.last() == tq@ && views.last() == mq@);
            assert(concat_cols(v1) =~= bq@);
            assert(concat_cols(v2) =~= bq@ + tq@);
            assert(concat_cols(views) =~= all);
        }
        let all_quotients = Matrix::join(parts);
        assert(all_quotients@ == all);
        assert(all_quotients.felts()) by {
            assert forall|k: int| 0 <= k < all.len() implies all_felts(#[trigger] all[k]) by {
                if k < bq@.len() {
                    assert(all[k] == bq@[k]);
                } else if k < bq@.len() + tq@.len() {
                    assert(all[k] == tq@[k - bq@.len()]);
                } else {
                    assert(all[k] == mq@[k - bq@.len() - tq@.len()]);
                }
            }
        }
        let eval_matrix = all_quotients.sum_columns();
        let merkle_tree = eval_matrix.commit_to_rows();
        (eval_matrix, merkle_tree)
    }
}

/// Where a proof session stands in the pipeline.
#[derive(Debug, Clone, Copy, PartialEq, Eq, Structural)]
pub enum ProverStage {
    /// Waiting for the low-degree extension of the base trace columns.
    BaseTrace,
    /// Waiting for the extension columns, if the trace has any.
    ExtensionTrace,
    /// Waiting for the constraint evaluations.
    Constraints,
    /// The proof was emitted.
    Done,
}

/// The roots of a sequence of row commitments.
pub open spec fn roots_of(trees: Seq<MatrixMerkleTreeImpl>) -> Seq<Seq<u8>> {
    trees.map_values(|t: MatrixMerkleTreeImpl| t.spec_root()@)
}

/// One run of the prover pipeline. The polynomial engine that extends the
/// trace to the LDE domain and the AIR that evaluates the constraints stand
/// outside; each step takes what they produced and does the commitments and
/// the Fiat–Shamir transcript.
pub struct ProofSession {
    options: ProofOptions,
    trace_info: TraceInfo,
    lde_len: usize,
    num_challenges: usize,
    channel: ProverChannel,
    stage: ProverStage,
    trace_lde: Option<Matrix>,
    challenges: Vec<u64>,
    trees: Vec<MatrixMerkleTreeImpl>,
}

impl ProofSession {
    pub closed spec fn stage_view(&self) -> ProverStage {
        self.stage
    }

    pub closed spec fn lde_len_view(&self) -> nat {
        self.lde_len as nat
    }

    pub closed spec fn num_challenges_view(&self) -> nat {
        self.num_challenges as nat
    }

    pub closed spec fn channel_view(&self) -> ProverChannel {
        self.channel
    }

    pub closed spec fn trees_view(&self) -> Seq<MatrixMerkleTreeImpl> {
        self.trees@
    }

    pub closed spec fn trace_lde_view(&self) -> Option<Matrix> {
        self.trace_lde
    }

    pub closed spec fn challenges_view(&self) -> Seq<u64> {
        self.challenges@
    }

    pub closed spec fn options_view(&self) -> ProofOptions {
        self.options
    }

    pub closed spec fn trace_info_view(&self) -> TraceInfo {
        self.trace_info
    }

    /// The transcript has absorbed exactly the roots of the commitments made,
    /// in order; once the base trace is in, the trace LDE is a matrix of field
    /// elements over the LDE domain.
    pub closed spec fn wf(&self) -> bool {
        &&& self.channel.wf()
        &&& self.channel.absorbed() == roots_of(self.trees@)
        &&& self.lde_len >= 2
        &&& is_pow2(self.lde_len as int)
        &&& forall|k: int| 0 <= k < self.trees@.len() ==> (#[trigger] self.trees@[k]).valid()
        &&& self.stage != ProverStage::BaseTrace ==> self.trace_lde is Some && is_felt_matrix(
            self.trace_lde->Some_0,
            self.lde_len as nat,
        )
    }

    /// Starts a proof of a trace of shape `trace_info` with encoded public
    /// inputs `public_inputs`, for an AIR with constraint-evaluation blowup
    /// `ce_blowup_factor` that draws `num_challenges` challenges.
    ///
    /// # Errors
    ///
    /// Fails when the constraint-evaluation blowup exceeds the LDE blowup of
    /// the options, or when the LDE domain size `trace_len * blowup_factor` is
    /// not a power of two of at least 2.
    pub fn new(
        options: ProofOptions,
        trace_info: TraceInfo,
        public_inputs: &[u8],
        ce_blowup_factor: usize,
        num_challenges: usize,
    ) -> (r: Result<Self, ProvingError>)
        requires
            trace_info.trace_len * options.blowup_factor <= usize::MAX,
        ensures
            r is Ok <==> {
                &&& ce_blowup_factor <= options.blowup_factor
                &&& trace_info.trace_len * options.blowup_factor >= 2
                &&& is_pow2(trace_info.trace_len * options.blowup_factor)
            },
            r is Err ==> r == Err::<Self, ProvingError>(ProvingError::Fail),
            r is Ok ==> {
                let s = r->Ok_0;
                &&& s.wf()
                &&& s.stage_view() == ProverStage::BaseTrace
                &&& s.lde_len_view() == trace_info.trace_len * options.blowup_factor
                &&& s.num_challenges_view() == num_challenges
                &&& s.options_view() == options
                &&& s.trace_info_view() == trace_info
                &&& s.trees_view().len() == 0
                &&& s.channel_view().public_inputs() == public_inputs@
            },
    {
        let lde_blowup_factor = options.blowup_factor as usize;
        if ce_blowup_factor > lde_blowup_factor {
            return Err(ProvingError::Fail);
        }
        let lde_len = trace_info.trace_len * lde_blowup_factor;
        if lde_len < 2 || !crate::merkle::is_power_of_two(lde_len) {
            return Err(ProvingError::Fail);
        }
        let channel = ProverChannel::new(public_inputs);
        let s = ProofSession {
            options,
            trace_info,
            lde_len,
            num_challenges,
            channel,
            stage: ProverStage::BaseTrace,
            trace_lde: None,
            challenges: Vec::new(),
            trees: Vec::new(),
        };
        proof {
            assert(roots_of(s.trees@) =~= Seq::<Seq<u8>>::empty());
        }
        Ok(s)
    }

    /// The stage the session is in.
    pub fn stage(&self) -> (r: ProverStage)
        ensures
            r == self.stage_view(),
    {
        self.stage
    }

    /// The number of rows of every matrix from the trace LDE on.
    pub fn lde_len(&self) -> (r: usize)
        ensures
            r == self.lde_len_view(),
    {
        self.lde_len
    }

    /// The trace LDE: base columns, then extension columns.
    pub fn trace_lde(&self) -> (r: &Matrix)
        requires
            self.wf(),
            self.stage_view() != ProverStage::BaseTrace,
        ensures
            *r == self.trace_lde_view()->Some_0,
    {
        self.trace_lde.as_ref().unwrap()
    }

    /// The roots of the commitments made so far, in order.
    pub fn roots(&self) -> (r: Vec<HashOutput>)
        requires
            self.wf(),
        ensures
            r@.len() == self.trees_view().len(),
            forall|k: int| 0 <= k < r@.len() ==> (#[trigger] r@[k])@ == self.trees_view()[k].spec_root()@,
    {
        let mut r: Vec<HashOutput> = Vec::with_capacity(self.trees.len());
        let mut k: usize = 0;
        while k < self.trees.len()
            invariant
                self.wf(),
                k <= self.trees@.len(),
                r@.len() == k,
                forall|t: int| 0 <= t < k ==> (#[trigger] r@[t])@ == self.trees@[t].spec_root()@,
            decreases self.trees@.len() - k,
        {
            assert(self.trees@[k as int].valid());
            r.push(*self.trees[k].root());
            k += 1;
        }
        r
    }

    /// The challenges drawn after the base trace commitment.
    pub fn challenges(&self) -> (r: &[u64])
        ensures
            r@ == self.challenges_view(),
    {
        self.challenges.as_slice()
    }

    /// Commits to the rows of the base trace LDE, absorbs the root and draws
    /// the AIR's challenges from the transcript.
    pub fn commit_base_trace(&mut self, base_trace_lde: Matrix) -> (r: Vec<u64>)
        requires
            old(self).wf(),
            old(self).stage_view() == ProverStage::BaseTrace,
            is_felt_matrix(base_trace_lde, old(self).lde_len_view()),
        ensures
            final(self).wf(),
            final(self).stage_view() == ProverStage::ExtensionTrace,
            final(self).trace_lde_view() == Some(base_trace_lde),
            final(self).trees_view().len() == old(self).trees_view().len() + 1,
            final(self).trees_view().drop_last() == old(self).trees_view(),
            final(self).trees_view().last().commits_to(base_trace_lde@),
            final(self).channel_view().public_inputs() == old(self).channel_view().public_inputs(),
            r@ == draw(final(self).channel_view().state(), 0, old(self).num_challenges_view() as int),
            final(self).challenges_view() == r@,
            forall|i: int| 0 <= i < r@.len() ==> is_felt(#[trigger] r@[i]),
            final(self).lde_len_view() == old(self).lde_len_view(),
            final(self).num_challenges_view() == old(self).num_challenges_view(),
            final(self).options_view() == old(self).options_view(),
            final(self).trace_info_view() == old(self).trace_info_view(),
    {
        let tree = base_trace_lde.commit_to_rows();
        self.channel.commit_trace(tree.root());
        let challenges = self.channel.get_challenges(self.num_challenges);
        let ghost old_trees = self.trees@;
        self.trees.push(tree);
        proof {
            assert(self.trees@.drop_last() =~= old_trees);
            assert(roots_of(self.trees@) =~= roots_of(old_trees).push(tree.spec_root()@));
        }
        self.trace_lde = Some(base_trace_lde);
        self.challenges = copy_felts(&challenges);
        self.stage = ProverStage::ExtensionTrace;
        challenges
    }

    /// Commits to the extension columns, when the trace built any from the
    /// challenges, absorbs their root and appends them to the trace LDE.
    pub fn commit_extension_trace(&mut self, extension_trace_lde: Option<Matrix>)
        requires
            old(self).wf(),
            old(self).stage_view() == ProverStage::ExtensionTrace,
            extension_trace_lde is Some ==> is_felt_matrix(
                extension_trace_lde->Some_0,
                old(self).lde_len_view(),
            ),
        ensures
            final(self).wf(),
            final(self).stage_view() == ProverStage::Constraints,
            extension_trace_lde is None ==> {
                &&& final(self).trees_view() == old(self).trees_view()
                &&& final(self).channel_view() == old(self).channel_view()
                &&& final(self).trace_lde_view() == old(self).trace_lde_view()
            },
            extension_trace_lde is Some ==> {
                &&& final(self).trees_view().drop_last() == old(self).trees_view()
                &&& final(self).trees_view().len() == old(self).trees_view().len() + 1
                &&& final(self).trees_view().last().commits_to(extension_trace_lde->Some_0@)
                &&& final(self).trace_lde_view()->Some_0@ == old(self).trace_lde_view()->Some_0@
                    + extension_trace_lde->Some_0@
            },
            final(self).channel_view().public_inputs() == old(self).channel_view().public_inputs(),
            final(self).challenges_view() == old(self).challenges_view(),
            final(self).lde_len_view() == old(self).lde_len_view(),
            final(self).options_view() == old(self).options_view(),
            final(self).trace_info_view() == old(self).trace_info_view(),
    {
        match extension_trace_lde {
            Some(extension) => {
                let tree = extension.commit_to_rows();
                self.channel.commit_trace(tree.root());
                let ghost old_trees = self.trees@;
                self.trees.push(tree);
                proof {
                    assert(self.trees@.drop_last() =~= old_trees);
                    assert(roots_of(self.trees@) =~= roots_of(old_trees).push(tree.spec_root()@));
                }
                let mut lde = self.trace_lde.take().unwrap();
                let ghost before = lde@;
                lde.append(extension);
                proof {
                    assert forall|k: int| 0 <= k < lde@.len() implies all_felts(#[trigger] lde@[k]) by {
                        if k >= before.len() {
                            assert(lde@[k] == extension@[k - before.len()]);
                        } else {
                            assert(lde@[k] == before[k]);
                        }
                    }
                }
                self.trace_lde = Some(lde);
            },
            None => {},
        }
        self.stage = ProverStage::Constraints;
    }

    /// Builds the composition column from the constraint evaluations over the
    /// trace LDE, commits to it, absorbs its root and emits the proof.
    pub fn commit_constraints(
        &mut self,
        boundary_constraint_evals: Matrix,
        boundary_divisor: &Vec<u64>,
        transition_constraint_evals: Matrix,
        transition_divisor: &Vec<u64>,
        terminal_constraint_evals: Matrix,
        terminal_divisor: &Vec<u64>,
    ) -> (r: Proof)
        requires
            old(self).wf(),
            old(self).stage_view() == ProverStage::Constraints,
            is_felt_matrix(boundary_constraint_evals, old(self).lde_len_view()),
            is_felt_matrix(transition_constraint_evals, old(self).lde_len_view()),
            is_felt_matrix(terminal_constraint_evals, old(self).lde_len_view()),
            boundary_divisor@.len() == old(self).lde_len_view(),
            transition_divisor@.len() == old(self).lde_len_view(),
            terminal_divisor@.len() == old(self).lde_len_view(),
            all_felts(boundary_divisor@),
            all_felts(transition_divisor@),
            all_felts(terminal_divisor@),
        ensures
            final(self).wf(),
            final(self).stage_view() == ProverStage::Done,
            final(self).trees_view().drop_last() == old(self).trees_view(),
            final(self).trees_view().len() == old(self).trees_view().len() + 1,
            ({
                let c = final(self).trees_view().last();
                exists|col: Matrix|
                    {
                        &&& #[trigger] c.commits_to(col@)
                        &&& col@.len() == 1
                        &&& is_felt_matrix(col, old(self).lde_len_view())
                        &&& forall|i: int|
                            0 <= i < old(self).lde_len_view() ==> #[trigger] col@[0][i] == composition_of(
                                boundary_constraint_evals@,
                                boundary_divisor@,
                                transition_constraint_evals@,
                                transition_divisor@,
                                terminal_constraint_evals@,
                                terminal_divisor@,
                                i,
                            )
                    }
            }),
            final(self).channel_view().public_inputs() == old(self).channel_view().public_inputs(),
            final(self).trace_lde_view() == old(self).trace_lde_view(),
            final(self).challenges_view() == old(self).challenges_view(),
            r.options_view() == old(self).options_view(),
            r.trace_info_view() == old(self).trace_info_view(),
            r.commitments_view() == Seq::<u64>::empty(),
    {
        let prover = Prover::new(self.options);
        let (composition, tree) = prover.build_constraint_commitment(
            boundary_constraint_evals,
            boundary_divisor,
            transition_constraint_evals,
            transition_divisor,
            terminal_constraint_evals,
            terminal_divisor,
        );
        self.channel.commit_trace(tree.root());
        let ghost old_trees = self.trees@;
        self.trees.push(tree);
        proof {
            assert(self.trees@.drop_last() =~= old_trees);
            assert(roots_of(self.trees@) =~= roots_of(old_trees).push(tree.spec_root()@));
            assert(self.trees@.last().commits_to(composition@));
        }
        self.stage = ProverStage::Done;
        Proof { options: self.options, trace_info: self.trace_info, commitments: Vec::new() }
    }
}

/// Copies a vector of field elements.
fn copy_felts(v: &Vec<u64>) -> (r: Vec<u64>)
    ensures
        r@ == v@,
{
    let mut r: Vec<u64> = Vec::with_capacity(v.len());
    let mut i: usize = 0;
    while i < v.len()
        invariant
            i <= v@.len(),
            r@ == v@.subrange(0, i as int),
        decreases v@.len() - i,
    {
        r.push(v[i]);
        i += 1;
    }
    proof {
        assert(v@.subrange(0, v@.len() as int) == v@);
    }
    r
}

/// Two proof sessions started from the same public inputs, whose commitments
/// were made to the same matrices in the same order, have absorbed the same
/// roots, are in the same transcript state and draw the same challenges.
pub proof fn lemma_session_determinism(
    s1: ProofSession,
    s2: ProofSession,
    committed: Seq<Seq<Seq<u64>>>,
    k: int,
)
    requires
        s1.wf(),
        s2.wf(),
        s1.channel_view().public_inputs() == s2.channel_view().public_inputs(),
        s1.trees_view().len() == committed.len(),
        s2.trees_view().len() == committed.len(),
        forall|j: int| 0 <= j < committed.len() ==> (#[trigger] s1.trees_view()[j]).commits_to(committed[j]),
        forall|j: int| 0 <= j < committed.len() ==> (#[trigger] s2.trees_view()[j]).commits_to(committed[j]),
    ensures
        s1.channel_view().absorbed() == s2.channel_view().absorbed(),
        s1.channel_view().state() == s2.channel_view().state(),
        draw(s1.channel_view().state(), 0, k) == draw(s2.channel_view().state(), 0, k),
{
    let r1 = roots_of(s1.trees@);
    let r2 = roots_of(s2.trees@);
    assert forall|j: int| 0 <= j < r1.len() implies #[trigger] r1[j] == r2[j] by {
        lemma_commitment_determinism(s1.trees@[j], s2.trees@[j], committed[j]);
    }
    assert(r1 =~= r2);
}

} // verus!
