//! The blinding circuit: an outer circuit whose witness is an inner VP's
//! proof, verifying key and public input, and whose constraints are
//! satisfied exactly when the inner verifier's check would have succeeded.
//! The outer circuit's shape does not depend on which inner VP was used, and
//! its own public input is empty.

use vstd::prelude::*;
use crate::felt::{Felt, bytes_eq, lemma_le_int_injective};
use crate::composer::{Composer, Gate, lemma_extends_preserves, lemma_extends_trans};
use crate::proof_system::{UniversalParams, ProvingKey, VerifierKey, Proof, pi_views,
    verify_ok_of, structure_digest_of, padded_size_spec, compile, prove, verify};
use crate::error::TaigaError;

verus! {

/// The list of gates the verifier-wiring gadget adds over a composer holding
/// `base` variables, for an inner public input of length `n`: one equality
/// over the digest pair, then one equality per public-input pair. The shape
/// depends on the public-input length alone, never on the witness values,
/// so two assemblies over equal bases yield one structure.
pub open spec fn blinding_gates(base: int, n: int) -> Seq<Gate> {
    Seq::new((n + 1) as nat, |i: int| if i == 0 {
        Gate::AssertEq { a: base as usize, b: (base + 1) as usize }
    } else {
        Gate::AssertEq { a: (base + 2 * i) as usize, b: (base + 2 * i + 1) as usize }
    })
}

/// Wire the inner verifier's checks as constraints over witnessed values:
/// the proof's bound digest must equal the inner verifying key's digest, and
/// the proof's bound public input must equal the claimed one, element by
/// element; the transcript label is checked during witness generation. The
/// assembly fails with a constraint violation exactly when the inner proof
/// would not verify.
#[verifier::loop_isolation(false)]
#[verifier::rlimit(60)]
pub fn blinding_gadget(cs: &mut Composer, vk: &VerifierKey, proof: &Proof,
    public_input: &Vec<Felt>, transcript_label: &Vec<u8>) -> (r: Result<(), TaigaError>)
    requires
        old(cs).wf(),
        vk.digest.wf(),
        proof.vk_digest.wf(),
        forall|i: int| 0 <= i < proof.public_input@.len()
            ==> (#[trigger] proof.public_input@[i]).wf(),
        forall|i: int| 0 <= i < public_input@.len() ==> (#[trigger] public_input@[i]).wf(),
    ensures
        final(cs).wf(),
        final(cs).extends(*old(cs)),
        final(cs).publics@ == old(cs).publics@,
        r.is_ok() <==> verify_ok_of(vk.digest@, transcript_label@, pi_views(public_input@),
            *proof),
        r.is_err() ==> r == Err::<(), TaigaError>(TaigaError::ConstraintViolation),
        r.is_ok() ==> final(cs).gates@ == old(cs).gates@
            + blinding_gates(old(cs).n(), public_input@.len() as int),
        r.is_ok() ==> final(cs).n() == old(cs).n() + 2 * public_input@.len() + 2,
        (old(cs).satisfied() && r.is_ok()) ==> final(cs).satisfied(),
{
    if !bytes_eq(&proof.label, transcript_label) {
        return Err(TaigaError::ConstraintViolation);
    }
    if proof.public_input.len() != public_input.len() {
        proof {
            assert(pi_views(proof.public_input@).len() != pi_views(public_input@).len());
        }
        return Err(TaigaError::ConstraintViolation);
    }
    let ghost c0 = *cs;
    let claimed = cs.add_input(proof.vk_digest.dup());
    let ghost c1 = *cs;
    let expected = cs.add_input(vk.digest.dup());
    let ghost c2 = *cs;
    let dig_eq = cs.assert_equal(claimed, expected);
    let ghost c3 = *cs;
    proof {
        lemma_extends_trans(c0, c1, c2);
        lemma_extends_trans(c0, c2, c3);
        lemma_extends_preserves(c1, c2, claimed as int);
        assert(claimed == c0.n() as usize);
        assert(expected == (c0.n() + 1) as usize);
        assert(c3.gates@ == c0.gates@.push(Gate::AssertEq { a: claimed, b: expected }));
    }
    if dig_eq.is_err() {
        return Err(TaigaError::ConstraintViolation);
    }
    let n = public_input.len();
    let mut ok = true;
    proof {
        assert(cs.gates@ =~= c3.gates@ + Seq::new(0, |j: int| Gate::AssertEq {
            a: (c0.n() + 2 + 2 * j) as usize,
            b: (c0.n() + 3 + 2 * j) as usize,
        }));
    }
    for i in 0..n
        invariant
            n == public_input@.len() == proof.public_input@.len(),
            cs.wf(),
            cs.extends(c0),
            cs.publics@ == c0.publics@,
            cs.n() == c0.n() + 2 + 2 * i,
            cs.gates@ == c3.gates@ + Seq::new(i as nat, |j: int| Gate::AssertEq {
                a: (c0.n() + 2 + 2 * j) as usize,
                b: (c0.n() + 3 + 2 * j) as usize,
            }),
            ok <==> (forall|j: int| 0 <= j < i
                ==> (#[trigger] proof.public_input@[j])@ == public_input@[j]@),
            (c0.satisfied() && ok) ==> cs.satisfied(),
    {
        let ghost prev = *cs;
        let x = cs.add_input(proof.public_input[i].dup());
        let ghost s1 = *cs;
        let y = cs.add_input(public_input[i].dup());
        let ghost s2 = *cs;
        proof {
            lemma_extends_preserves(s1, s2, x as int);
        }
        let eq = cs.assert_equal(x, y);
        proof {
            lemma_extends_trans(prev, s1, s2);
            lemma_extends_trans(prev, s2, *cs);
            lemma_extends_trans(c0, prev, *cs);
            assert(x == (c0.n() + 2 + 2 * i) as usize);
            assert(y == (c0.n() + 3 + 2 * i) as usize);
            assert(cs.gates@ =~= c3.gates@ + Seq::new((i + 1) as nat, |j: int| Gate::AssertEq {
                a: (c0.n() + 2 + 2 * j) as usize,
                b: (c0.n() + 3 + 2 * j) as usize,
            }));
        }
        if eq.is_err() {
            ok = false;
        }
    }
    if ok {
        proof {
            assert(pi_views(proof.public_input@) =~= pi_views(public_input@));
            assert(cs.gates@ =~= c0.gates@ + blinding_gates(c0.n(), n as int));
        }
        Ok(())
    } else {
        proof {
            let j = choose|j: int| 0 <= j < n
                && (#[trigger] proof.public_input@[j])@ != public_input@[j]@;
            assert(pi_views(proof.public_input@)[j] != pi_views(public_input@)[j]);
        }
        Err(TaigaError::ConstraintViolation)
    }
}

/// A blinded attestation: the outer proof, verifying key and public input,
/// all immutable once constructed.
pub struct BlindingCircuit {
    pub public_input: Vec<Felt>,
    pub proof: Proof,
    pub vk: VerifierKey,
    pub transcript_label: Vec<u8>,
}

/// Build the outer prover state: assemble the verifier-wiring gadget and trim
/// keys for it from the outer universal parameters. Fails with a constraint
/// violation when the inner proof does not verify, and with a setup error
/// when the parameters cannot hold the padded outer circuit.
pub fn precompute_prover(setup: &UniversalParams, inner_vk: &VerifierKey, inner_proof: &Proof,
    inner_public_input: &Vec<Felt>, inner_label: &Vec<u8>)
    -> (r: Result<(Composer, ProvingKey, VerifierKey, Vec<Felt>), TaigaError>)
    requires
        inner_vk.digest.wf(),
        inner_proof.vk_digest.wf(),
        forall|i: int| 0 <= i < inner_proof.public_input@.len()
            ==> (#[trigger] inner_proof.public_input@[i]).wf(),
        forall|i: int| 0 <= i < inner_public_input@.len()
            ==> (#[trigger] inner_public_input@[i]).wf(),
    ensures
        r.is_ok() ==> verify_ok_of(inner_vk.digest@, inner_label@,
            pi_views(inner_public_input@), *inner_proof),
        r matches Ok(t) ==> {
            &&& t.0.wf()
            &&& t.0.satisfied()
            &&& t.0.publics@.len() == 0
            &&& t.0.gates@ == blinding_gates(0, inner_public_input@.len() as int)
            &&& t.1.digest@ == structure_digest_of(t.0.gates@, t.0.publics@)
            &&& t.2.digest@ == structure_digest_of(t.0.gates@, t.0.publics@)
            &&& t.3@.len() == 0
        },
        !verify_ok_of(inner_vk.digest@, inner_label@, pi_views(inner_public_input@),
            *inner_proof) ==> r == Err::<(Composer, ProvingKey, VerifierKey, Vec<Felt>),
            TaigaError>(TaigaError::ConstraintViolation),
        (verify_ok_of(inner_vk.digest@, inner_label@, pi_views(inner_public_input@),
            *inner_proof) && inner_public_input@.len() <= 0xffffe
            && padded_size_spec(inner_public_input@.len() as int + 1) + 6
                <= setup.max_degree as int) ==> r.is_ok(),
        (verify_ok_of(inner_vk.digest@, inner_label@, pi_views(inner_public_input@),
            *inner_proof) && inner_public_input@.len() <= 0xffffe
            && padded_size_spec(inner_public_input@.len() as int + 1) + 6
                > setup.max_degree as int) ==> r == Err::<(Composer, ProvingKey,
            VerifierKey, Vec<Felt>), TaigaError>(TaigaError::SetupError),
{
    let mut cs = Composer::new();
    let wired = blinding_gadget(&mut cs, inner_vk, inner_proof, inner_public_input,
        inner_label);
    if wired.is_err() {
        return Err(TaigaError::ConstraintViolation);
    }
    proof {
        assert(cs.gates@ =~= blinding_gates(0, inner_public_input@.len() as int));
        assert(cs.gates@.len() == inner_public_input@.len() + 1);
    }
    if cs.gates.len() > 0xffffff {
        return Err(TaigaError::SetupError);
    }
    let keys = compile(setup, &cs);
    let (pk, vk) = match keys {
        Ok(t) => t,
        Err(_) => {
            return Err(TaigaError::SetupError);
        },
    };
    let public_input: Vec<Felt> = Vec::new();
    Ok((cs, pk, vk, public_input))
}

/// Build the outer verifier state: the same gadget assembled on the
/// verifier's side, so that preprocessing sees the same structure.
pub fn precompute_verifier(inner_vk: &VerifierKey, inner_proof: &Proof,
    inner_public_input: &Vec<Felt>, inner_label: &Vec<u8>) -> (r: Result<Composer, TaigaError>)
    requires
        inner_vk.digest.wf(),
        inner_proof.vk_digest.wf(),
        forall|i: int| 0 <= i < inner_proof.public_input@.len()
            ==> (#[trigger] inner_proof.public_input@[i]).wf(),
        forall|i: int| 0 <= i < inner_public_input@.len()
            ==> (#[trigger] inner_public_input@[i]).wf(),
    ensures
        r matches Ok(cs) ==> cs.wf() && cs.satisfied(),
        r matches Ok(cs) ==> cs.gates@ == blinding_gates(0, inner_public_input@.len() as int)
            && cs.publics@.len() == 0,
        r.is_ok() <==> verify_ok_of(inner_vk.digest@, inner_label@,
            pi_views(inner_public_input@), *inner_proof),
{
    let mut cs = Composer::new();
    let wired = blinding_gadget(&mut cs, inner_vk, inner_proof, inner_public_input,
        inner_label);
    if wired.is_err() {
        return Err(TaigaError::ConstraintViolation);
    }
    proof {
        assert(cs.gates@ =~= blinding_gates(0, inner_public_input@.len() as int));
    }
    Ok(cs)
}

/// Preprocess prover and verifier: both must have assembled the same circuit
/// structure; a mismatch is a hard proof-generation failure.
pub fn preprocess(prover: &Composer, verifier: &Composer, pk: &ProvingKey)
    -> (r: Result<(), TaigaError>)
    requires
        prover.wf(),
        verifier.wf(),
        prover.gates@.len() <= 0xffffff,
        verifier.gates@.len() <= 0xffffff,
    ensures
        r.is_ok() <==> structure_digest_of(prover.gates@, prover.publics@)
            == structure_digest_of(verifier.gates@, verifier.publics@)
            && pk.digest@ == structure_digest_of(prover.gates@, prover.publics@),
        r.is_err() ==> r == Err::<(), TaigaError>(TaigaError::ProofGenerationFailure),
{
    proof {
        assert forall|i: int| 0 <= i < prover.gates@.len()
            implies (#[trigger] prover.gates@[i]).in_bounds(usize::MAX as int + 1) by {
            assert(prover.gates@[i].in_bounds(prover.n()));
        }
        assert forall|i: int| 0 <= i < verifier.gates@.len()
            implies (#[trigger] verifier.gates@[i]).in_bounds(usize::MAX as int + 1) by {
            assert(verifier.gates@[i].in_bounds(verifier.n()));
        }
    }
    let dp = crate::proof_system::structure_digest(&prover.gates, &prover.publics);
    let dv = crate::proof_system::structure_digest(&verifier.gates, &verifier.publics);
    if !bytes_eq(&dp.bytes, &dv.bytes) {
        return Err(TaigaError::ProofGenerationFailure);
    }
    if !bytes_eq(&pk.digest.bytes, &dp.bytes) {
        return Err(TaigaError::ProofGenerationFailure);
    }
    Ok(())
}

impl BlindingCircuit {
    /// Build a blinding circuit over an inner proof: wire the inner
    /// verifier, trim outer keys, and produce the outer proof. Construction
    /// fails with a constraint violation exactly when the inner proof does
    /// not verify against its own key and public input, and with a setup
    /// error when the outer parameters are too small.
    pub fn new(setup: &UniversalParams, inner_vk: &VerifierKey, inner_proof: &Proof,
        inner_public_input: &Vec<Felt>, inner_label: &Vec<u8>, outer_label: &Vec<u8>)
        -> (r: Result<BlindingCircuit, TaigaError>)
        requires
            inner_vk.digest.wf(),
            inner_proof.vk_digest.wf(),
            forall|i: int| 0 <= i < inner_proof.public_input@.len()
                ==> (#[trigger] inner_proof.public_input@[i]).wf(),
            forall|i: int| 0 <= i < inner_public_input@.len()
                ==> (#[trigger] inner_public_input@[i]).wf(),
        ensures
            !verify_ok_of(inner_vk.digest@, inner_label@, pi_views(inner_public_input@),
                *inner_proof) ==> r == Err::<BlindingCircuit, TaigaError>(
                TaigaError::ConstraintViolation),
            (verify_ok_of(inner_vk.digest@, inner_label@, pi_views(inner_public_input@),
                *inner_proof) && inner_public_input@.len() <= 0xffffe
                && padded_size_spec(inner_public_input@.len() as int + 1) + 6
                    <= setup.max_degree as int) ==> r.is_ok(),
            r matches Ok(bc) ==> {
                &&& verify_ok_of(inner_vk.digest@, inner_label@, pi_views(inner_public_input@),
                    *inner_proof)
                &&& verify_ok_of(bc.vk.digest@, bc.transcript_label@,
                    pi_views(bc.public_input@), bc.proof)
                &&& bc.public_input@.len() == 0
            },
    {
        let pre = precompute_prover(setup, inner_vk, inner_proof, inner_public_input,
            inner_label);
        let (cs, pk, vk, public_input) = match pre {
            Ok(t) => t,
            Err(e) => {
                return Err(e);
            },
        };
        let outer = prove(&pk, &cs, outer_label);
        let proof = match outer {
            Ok(prf) => prf,
            Err(_) => {
                proof {
                    assert(false);
                }
                return Err(TaigaError::ProofGenerationFailure);
            },
        };
        let mut label: Vec<u8> = Vec::new();
        let nl = outer_label.len();
        for i in 0..nl
            invariant
                nl == outer_label@.len(),
                label@ =~= outer_label@.subrange(0, i as int),
        {
            label.push(outer_label[i]);
        }
        proof {
            assert(label@ =~= outer_label@);
            assert(cs.public_values() =~= pi_views(public_input@));
        }
        Ok(BlindingCircuit { public_input, proof, vk, transcript_label: label })
    }

    /// Check the outer proof against the outer verifying key and public
    /// input: succeeds exactly when the attestation binds them.
    pub fn verify(&self) -> (r: Result<(), TaigaError>)
        ensures
            r.is_ok() <==> verify_ok_of(self.vk.digest@, self.transcript_label@,
                pi_views(self.public_input@), self.proof),
            r.is_err() ==> r == Err::<(), TaigaError>(TaigaError::VerificationFailure),
    {
        verify(&self.vk, &self.proof, &self.public_input, &self.transcript_label)
    }
}

} // verus!
