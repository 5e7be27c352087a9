use vstd::prelude::*;
use crate::field::{is_felt, MODULUS};
use crate::hash::{hash_concat, hash_pair, sha256, sha256_of, HashOutput};
use crate::matrix::u64_le_bytes;

verus! {

/// The `u64` whose little-endian encoding starts `b`.
pub open spec fn u64_from_le(b: Seq<u8>) -> u64 {
    (b[0] as u64) | ((b[1] as u64) << 8u64) | ((b[2] as u64) << 16u64) | ((b[3] as u64) << 24u64)
        | ((b[4] as u64) << 32u64) | ((b[5] as u64) << 40u64) | ((b[6] as u64) << 48u64) | ((b[7]
        as u64) << 56u64)
}

/// The candidate drawn from transcript state `seed` with counter `counter`: the
/// first eight bytes of `SHA-256(seed ‖ le(counter))`, read little-endian.
pub open spec fn candidate(seed: Seq<u8>, counter: u64) -> u64 {
    u64_from_le(sha256_of(seed + u64_le_bytes(counter)))
}

/// The challenges drawn from `seed`, trying counters from `counter` on and
/// keeping the candidates below the field modulus, until `k` are kept or the
/// counters run out.
pub open spec fn draw(seed: Seq<u8>, counter: int, k: int) -> Seq<u64>
    decreases u64::MAX - counter,
{
    if k <= 0 || counter < 0 || counter >= u64::MAX {
        Seq::empty()
    } else {
        let x = candidate(seed, counter as u64);
        if x < MODULUS {
            seq![x] + draw(seed, counter + 1, k - 1)
        } else {
            draw(seed, counter + 1, k)
        }
    }
}

/// Transcript state after absorbing `roots`, in order, into the state `seed`.
pub open spec fn absorb_all(seed: Seq<u8>, roots: Seq<Seq<u8>>) -> Seq<u8>
    decreases roots.len(),
{
    if roots.len() == 0 {
        seed
    } else {
        hash_pair(absorb_all(seed, roots.drop_last()), roots.last())
    }
}

/// Fiat–Shamir transcript of a prover.
pub struct ProverChannel {
    state: HashOutput,
    public_inputs: Ghost<Seq<u8>>,
    absorbed: Ghost<Seq<Seq<u8>>>,
}

impl ProverChannel {
    /// The current transcript state.
    pub closed spec fn state(&self) -> Seq<u8> {
        self.state@
    }

    /// The public inputs the transcript was started from.
    pub closed spec fn public_inputs(&self) -> Seq<u8> {
        self.public_inputs@
    }

    /// The roots absorbed so far, in order.
    pub closed spec fn absorbed(&self) -> Seq<Seq<u8>> {
        self.absorbed@
    }

    /// The state is the digest of the public inputs with every absorbed root
    /// chained in.
    pub open spec fn wf(&self) -> bool {
        self.state() == absorb_all(sha256_of(self.public_inputs()), self.absorbed())
    }

    /// Starts a transcript from the encoded public inputs.
    pub fn new(public_inputs: &[u8]) -> (r: Self)
        ensures
            r.wf(),
            r.public_inputs() == public_inputs@,
            r.absorbed() == Seq::<Seq<u8>>::empty(),
            r.state() == sha256_of(public_inputs@),
    {
        ProverChannel {
            state: sha256(public_inputs),
            public_inputs: Ghost(public_inputs@),
            absorbed: Ghost(Seq::empty()),
        }
    }

    /// Absorbs a commitment root into the transcript.
    pub fn commit_trace(&mut self, root: &HashOutput)
        requires
            old(self).wf(),
        ensures
            final(self).wf(),
            final(self).public_inputs() == old(self).public_inputs(),
            final(self).absorbed() == old(self).absorbed().push(root@),
            final(self).state() == hash_pair(old(self).state(), root@),
    {
        let ghost before = self.absorbed@;
        self.state = hash_concat(&self.state, root);
        self.absorbed = Ghost(before.push(root@));
        proof {
            assert(self.absorbed@.drop_last() =~= before);
        }
    }

    /// Draws `k` challenges from the current transcript state by rejection
    /// sampling on the field modulus.
    pub fn get_challenges(&self, k: usize) -> (r: Vec<u64>)
        ensures
            r@ == draw(self.state(), 0, k as int),
            forall|i: int| 0 <= i < r@.len() ==> is_felt(#[trigger] r@[i]),
    {
        let mut out: Vec<u64> = Vec::new();
        let mut counter: u64 = 0;
        proof {
            lemma_draw_felts(self.state@, 0, k as int);
        }
        while out.len() < k && counter < u64::MAX
            invariant
                out@.len() <= k,
                out@ + draw(self.state@, counter as int, k - out@.len()) == draw(self.state@, 0, k as int),
                forall|i: int| 0 <= i < out@.len() ==> is_felt(#[trigger] out@[i]),
            decreases u64::MAX - counter,
        {
            let cb: [u8; 8] = [
                counter as u8,
                (counter >> 8u64) as u8,
                (counter >> 16u64) as u8,
                (counter >> 24u64) as u8,
                (counter >> 32u64) as u8,
                (counter >> 40u64) as u8,
                (counter >> 48u64) as u8,
                (counter >> 56u64) as u8,
            ];
            proof {
                assert(cb@ =~= u64_le_bytes(counter));
            }
            let d = hash_concat(&self.state, &cb);
            let x: u64 = (d[0] as u64) | ((d[1] as u64) << 8u64) | ((d[2] as u64) << 16u64) | ((
            d[3] as u64) << 24u64) | ((d[4] as u64) << 32u64) | ((d[5] as u64) << 40u64) | ((d[6]
                as u64) << 48u64) | ((d[7] as u64) << 56u64);
            assert(x == candidate(self.state@, counter));
            let ghost prev = out@;
            if x < MODULUS {
                out.push(x);
                proof {
                    assert(prev + draw(self.state@, counter as int, k - prev.len()) =~= out@ + draw(
                        self.state@,
                        counter + 1,
                        k - out@.len(),
                    ));
                }
            }
            counter += 1;
        }
        proof {
            if out@.len() < k {
                assert(counter == u64::MAX);
            }
            assert(draw(self.state@, counter as int, k - out@.len()) =~= Seq::<u64>::empty());
            assert(out@ + Seq::<u64>::empty() =~= out@);
        }
        out
    }
}

/// Drawn challenges are canonical field elements.
proof fn lemma_draw_felts(seed: Seq<u8>, counter: int, k: int)
    ensures
        forall|i: int| 0 <= i < draw(seed, counter, k).len() ==> is_felt(#[trigger] draw(seed, counter, k)[i]),
    decreases u64::MAX - counter,
{
    if k > 0 && counter >= 0 && counter < u64::MAX {
        lemma_draw_felts(seed, counter + 1, k - 1);
        lemma_draw_felts(seed, counter + 1, k);
        let x = candidate(seed, counter as u64);
        if x < MODULUS {
            let d = draw(seed, counter, k);
            let t = draw(seed, counter + 1, k - 1);
            assert(d == seq![x] + t);
            assert forall|i: int| 0 <= i < d.len() implies is_felt(#[trigger] d[i]) by {
                if i > 0 {
                    assert(d[i] == t[i - 1]);
                } else {
                    assert(d[0] == x);
                }
            }
        } else {
            assert(draw(seed, counter, k) == draw(seed, counter + 1, k));
        }
    }
}

/// Two transcripts started from the same public inputs that absorbed the same
/// roots in the same order are in the same state, so they draw the same
/// challenges.
pub proof fn lemma_transcript_determinism(a: ProverChannel, b: ProverChannel, k: int)
    requires
        a.wf(),
        b.wf(),
        a.public_inputs() == b.public_inputs(),
        a.absorbed() == b.absorbed(),
    ensures
        a.state() == b.state(),
        draw(a.state(), 0, k) == draw(b.state(), 0, k),
{
}

} // verus!
