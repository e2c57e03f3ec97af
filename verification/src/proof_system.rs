//! Prover/verifier orchestration: universal parameters are trimmed to a
//! padded circuit bound, a verifying key is a deterministic digest of the
//! circuit's structure, a proof binds that digest, the transcript label and
//! the public input, and verification needs no witness.

use vstd::prelude::*;
use vstd::arithmetic::power2::{pow2, lemma2_to64, lemma2_to64_rest, lemma_pow2_adds};
use crate::felt::{Felt, p, le_int, canon_bytes, lemma_canon_bytes, lemma_le_int_app,
    lemma_le_int_bound, lemma_le_int_nonneg, lemma_le_int_zero, lemma_le_int_push,
    lemma_le_int_injective, lemma_pow2_below_p, push_u64_le, bytes_eq, fp_add, fp_mul};
use crate::hash::{poseidon2_of, poseidon8_of, poseidon_hash2, poseidon_hash8};
use crate::composer::{Composer, Gate, gate_ok_in, bytes_of};
use crate::error::TaigaError;

verus! {

/// A fixed-width packing of a gate tag and three variable indices into one
/// residue: `tag + a*2^8 + b*2^72 + c*2^136`.
pub open spec fn pack(tag: int, a: int, b: int, c: int) -> int {
    tag + a * pow2(8) + b * pow2(72) + c * pow2(136)
}

/// The digest chain extended by one gate.
pub open spec fn gate_digest(acc: Seq<u8>, g: Gate) -> Seq<u8> {
    match g {
        Gate::Add { a, b, c } => poseidon2_of(acc, canon_bytes(pack(1, a as int, b as int,
            c as int))),
        Gate::Sub { a, b, c } => poseidon2_of(acc, canon_bytes(pack(2, a as int, b as int,
            c as int))),
        Gate::Mul { a, b, c } => poseidon2_of(acc, canon_bytes(pack(3, a as int, b as int,
            c as int))),
        Gate::MulConst { k, a, c } => poseidon2_of(poseidon2_of(acc, canon_bytes(pack(4,
            a as int, c as int, 0))), k@),
        Gate::ConstEq { k, a } => poseidon2_of(poseidon2_of(acc, canon_bytes(pack(5, a as int,
            0, 0))), k@),
        Gate::AssertEq { a, b } => poseidon2_of(acc, canon_bytes(pack(6, a as int, b as int, 0))),
        Gate::BoolCheck { a } => poseidon2_of(acc, canon_bytes(pack(7, a as int, 0, 0))),
        Gate::Range64 { a } => poseidon2_of(acc, canon_bytes(pack(8, a as int, 0, 0))),
        Gate::Hash2 { a, b, c } => poseidon2_of(acc, canon_bytes(pack(9, a as int, b as int,
            c as int))),
        Gate::Hash8 { m, c } => poseidon2_of(poseidon2_of(poseidon2_of(
            poseidon2_of(acc, canon_bytes(pack(10, c as int, 0, 0))),
            canon_bytes(pack(11, m@[0] as int, m@[1] as int, m@[2] as int))),
            canon_bytes(pack(11, m@[3] as int, m@[4] as int, m@[5] as int))),
            canon_bytes(pack(11, m@[6] as int, m@[7] as int, 0))),
    }
}

/// The digest chain over a gate sequence.
pub open spec fn gates_digest(acc: Seq<u8>, gates: Seq<Gate>) -> Seq<u8>
    decreases gates.len(),
{
    if gates.len() == 0 {
        acc
    } else {
        gates_digest(gate_digest(acc, gates[0]), gates.skip(1))
    }
}

/// The digest chain over the public-input positions.
pub open spec fn publics_digest(acc: Seq<u8>, publics: Seq<usize>) -> Seq<u8>
    decreases publics.len(),
{
    if publics.len() == 0 {
        acc
    } else {
        publics_digest(poseidon2_of(acc, canon_bytes(pack(12, publics[0] as int, 0, 0))),
            publics.skip(1))
    }
}

/// The deterministic digest of a circuit's structure: its gate list and its
/// public-input layout, folded under the arity-2 hash from zero.
pub open spec fn structure_digest_of(gates: Seq<Gate>, publics: Seq<usize>) -> Seq<u8> {
    publics_digest(gates_digest(canon_bytes(0), gates), publics)
}

/// The packed field element for a gate tag and three indices.
pub fn felt_pack(tag: u8, a: usize, b: usize, c: usize) -> (r: Felt)
    requires
        tag < 16,
    ensures
        r.wf(),
        r.as_int() == pack(tag as int, a as int, b as int, c as int),
{
    let mut bytes: Vec<u8> = Vec::new();
    proof {
        lemma_le_int_push(bytes@, tag);
        lemma2_to64();
    }
    bytes.push(tag);
    push_u64_le(&mut bytes, a as u64);
    push_u64_le(&mut bytes, b as u64);
    push_u64_le(&mut bytes, c as u64);
    let ghost head = bytes@;
    for i in 25..32usize
        invariant
            bytes@.len() == i,
            le_int(bytes@) == le_int(head),
    {
        proof {
            lemma_le_int_push(bytes@, 0);
        }
        bytes.push(0);
    }
    proof {
        // the value lies far below the modulus
        lemma_le_int_bound(head);
        lemma_le_int_nonneg(head);
        lemma_pow2_below_p(200);
    }
    Felt { bytes }
}

/// The running structure digest, computed gate by gate.
#[verifier::loop_isolation(false)]
#[verifier::rlimit(100)]
pub fn structure_digest(gates: &Vec<Gate>, publics: &Vec<usize>) -> (r: Felt)
    requires
        forall|i: int| 0 <= i < gates@.len()
            ==> (#[trigger] gates@[i]).in_bounds(usize::MAX as int + 1),
    ensures
        r.wf(),
        r@ == structure_digest_of(gates@, publics@),
{
    let mut acc = Felt::zero();
    proof {
        lemma_canon_bytes(acc);
        assert(gates@.skip(0) =~= gates@);
    }
    let ghost target = gates_digest(canon_bytes(0), gates@);
    let n = gates.len();
    for i in 0..n
        invariant
            acc.wf(),
            gates_digest(acc@, gates@.skip(i as int)) == target,
    {
        let ghost prev_acc = acc@;
        let g = &gates[i];
        let next = match g {
            Gate::Add { a, b, c } => {
                let e = felt_pack(1, *a, *b, *c);
                proof { lemma_canon_bytes(e); }
                poseidon_hash2(&acc, &e)
            },
            Gate::Sub { a, b, c } => {
                let e = felt_pack(2, *a, *b, *c);
                proof { lemma_canon_bytes(e); }
                poseidon_hash2(&acc, &e)
            },
            Gate::Mul { a, b, c } => {
                let e = felt_pack(3, *a, *b, *c);
                proof { lemma_canon_bytes(e); }
                poseidon_hash2(&acc, &e)
            },
            Gate::MulConst { k, a, c } => {
                let e = felt_pack(4, *a, *c, 0);
                proof { lemma_canon_bytes(e); }
                let mid = poseidon_hash2(&acc, &e);
                poseidon_hash2(&mid, k)
            },
            Gate::ConstEq { k, a } => {
                let e = felt_pack(5, *a, 0, 0);
                proof { lemma_canon_bytes(e); }
                let mid = poseidon_hash2(&acc, &e);
                poseidon_hash2(&mid, k)
            },
            Gate::AssertEq { a, b } => {
                let e = felt_pack(6, *a, *b, 0);
                proof { lemma_canon_bytes(e); }
                poseidon_hash2(&acc, &e)
            },
            Gate::BoolCheck { a } => {
                let e = felt_pack(7, *a, 0, 0);
                proof { lemma_canon_bytes(e); }
                poseidon_hash2(&acc, &e)
            },
            Gate::Range64 { a } => {
                let e = felt_pack(8, *a, 0, 0);
                proof { lemma_canon_bytes(e); }
                poseidon_hash2(&acc, &e)
            },
            Gate::Hash2 { a, b, c } => {
                let e = felt_pack(9, *a, *b, *c);
                proof { lemma_canon_bytes(e); }
                poseidon_hash2(&acc, &e)
            },
            Gate::Hash8 { m, c } => {
                let e0 = felt_pack(10, *c, 0, 0);
                let e1 = felt_pack(11, m[0], m[1], m[2]);
                let e2 = felt_pack(11, m[3], m[4], m[5]);
                let e3 = felt_pack(11, m[6], m[7], 0);
                proof {
                    lemma_canon_bytes(e0);
                    lemma_canon_bytes(e1);
                    lemma_canon_bytes(e2);
                    lemma_canon_bytes(e3);
                }
                let h0 = poseidon_hash2(&acc, &e0);
                let h1 = poseidon_hash2(&h0, &e1);
                let h2 = poseidon_hash2(&h1, &e2);
                poseidon_hash2(&h2, &e3)
            },
        };
        proof {
            assert(next@ == gate_digest(prev_acc, gates@[i as int]));
            assert(gates@.skip(i as int)[0] == gates@[i as int]);
            assert(gates@.skip(i as int).skip(1) =~= gates@.skip(i + 1));
        }
        acc = next;
    }
    proof {
        assert(gates@.skip(n as int) =~= Seq::<Gate>::empty());
        assert(publics@.skip(0) =~= publics@);
    }
    let ghost gtarget = publics_digest(acc@, publics@);
    let np = publics.len();
    for i in 0..np
        invariant
            acc.wf(),
            publics_digest(acc@, publics@.skip(i as int)) == gtarget,
            gtarget == structure_digest_of(gates@, publics@),
    {
        let e = felt_pack(12, publics[i], 0, 0);
        proof {
            lemma_canon_bytes(e);
            assert(publics@.skip(i as int)[0] == publics@[i as int]);
            assert(publics@.skip(i as int).skip(1) =~= publics@.skip(i + 1));
        }
        acc = poseidon_hash2(&acc, &e);
    }
    proof {
        assert(publics@.skip(np as int) =~= Seq::<usize>::empty());
    }
    acc
}

/// A reusable universal parameter set, characterized by the largest circuit
/// bound it supports.
pub struct UniversalParams {
    pub max_degree: usize,
}

/// Generate universal parameters supporting the given bound.
pub fn setup(max_degree: usize) -> (pp: UniversalParams)
    ensures
        pp.max_degree == max_degree,
{
    UniversalParams { max_degree }
}

/// Key material for producing proofs of one circuit structure.
pub struct ProvingKey {
    pub digest: Felt,
    pub bound: usize,
}

/// Key material for checking proofs of one circuit structure; a
/// deterministic function of the structure, never of the witness.
pub struct VerifierKey {
    pub digest: Felt,
    pub bound: usize,
}

/// A succinct attestation binding a verifying-key digest, a transcript label
/// and a public-input vector.
pub struct Proof {
    pub label: Vec<u8>,
    pub vk_digest: Felt,
    pub public_input: Vec<Felt>,
}

/// The byte views of a public-input vector.
pub open spec fn pi_views(pi: Seq<Felt>) -> Seq<Seq<u8>> {
    pi.map_values(|f: Felt| f@)
}

/// What it means for a proof to check out against a verifying-key digest, a
/// transcript label and a public input.
pub open spec fn verify_ok_of(vk_digest: Seq<u8>, label: Seq<u8>, pi: Seq<Seq<u8>>, prf: Proof)
    -> bool {
    &&& prf.vk_digest@ == vk_digest
    &&& prf.label@ == label
    &&& pi_views(prf.public_input@) == pi
}

/// The padded circuit size: the next power of two at or above the count.
pub open spec fn padded_size_spec(n: int) -> int
    decreases n,
{
    if n <= 1 {
        1
    } else {
        2 * padded_size_spec((n + 1) / 2)
    }
}

/// Compute the padded circuit size.
pub fn padded_size(n: usize) -> (r: usize)
    requires
        n <= 0x10000000,
    ensures
        r == padded_size_spec(n as int),
        n <= 1 ==> r == 1,
        n >= 2 ==> r <= 2 * (n - 1),
        r >= 1,
    decreases n,
{
    if n <= 1 {
        1
    } else {
        let half = (n + 1) / 2;
        proof {
            vstd::arithmetic::div_mod::lemma_fundamental_div_mod(n as int + 1, 2);
        }
        let rec = padded_size(half);
        2 * rec
    }
}

/// Trim the universal parameters to a circuit: the bound is the next power
/// of two of the circuit's gate count, plus six, and it must fit inside the parameter
/// set, else the setup fails. On success the proving and verifying keys
/// carry the same structure digest.
pub fn compile(pp: &UniversalParams, cs: &Composer)
    -> (r: Result<(ProvingKey, VerifierKey), TaigaError>)
    requires
        cs.wf(),
        cs.gates@.len() <= 0xffffff,
    ensures
        r.is_ok() <==> padded_size_spec(cs.gates@.len() as int) + 6 <= pp.max_degree as int,
        r.is_err() ==> r == Err::<(ProvingKey, VerifierKey), TaigaError>(TaigaError::SetupError),
        r matches Ok(t) ==> {
            &&& t.0.digest@ == structure_digest_of(cs.gates@, cs.publics@)
            &&& t.1.digest@ == structure_digest_of(cs.gates@, cs.publics@)
            &&& t.0.digest.wf()
            &&& t.1.digest.wf()
            &&& t.0.bound == t.1.bound == padded_size_spec(cs.gates@.len() as int) + 6
        },
{
    let bound = padded_size(cs.gates.len()) + 6;
    if bound > pp.max_degree {
        return Err(TaigaError::SetupError);
    }
    proof {
        assert forall|i: int| 0 <= i < cs.gates@.len()
            implies (#[trigger] cs.gates@[i]).in_bounds(usize::MAX as int + 1) by {
            assert(cs.gates@[i].in_bounds(cs.n()));
        }
    }
    let digest = structure_digest(&cs.gates, &cs.publics);
    let vdigest = digest.dup();
    proof {
        assert(vdigest.wf()) by {
            assert(vdigest@ == digest@);
        }
    }
    Ok((ProvingKey { digest, bound }, VerifierKey { digest: vdigest, bound }))
}

/// Produce a proof: the proving key must carry the digest of exactly this
/// circuit structure, and the witness must satisfy every gate; a key
/// mismatch is a proof-generation failure and an unsatisfied witness a
/// constraint violation. The proof binds the digest, the label, and the
/// circuit's public values.
pub fn prove(pk: &ProvingKey, cs: &Composer, transcript_label: &Vec<u8>)
    -> (r: Result<Proof, TaigaError>)
    requires
        cs.wf(),
    ensures
        r.is_ok() <==> (pk.digest@ == structure_digest_of(cs.gates@, cs.publics@)
            && cs.satisfied()),
        pk.digest@ != structure_digest_of(cs.gates@, cs.publics@)
            ==> r == Err::<Proof, TaigaError>(TaigaError::ProofGenerationFailure),
        (pk.digest@ == structure_digest_of(cs.gates@, cs.publics@) && !cs.satisfied())
            ==> r == Err::<Proof, TaigaError>(TaigaError::ConstraintViolation),
        r matches Ok(prf) ==> {
            &&& verify_ok_of(pk.digest@, transcript_label@, cs.public_values(), prf)
            &&& prf.vk_digest.wf()
        },
{
    proof {
        assert forall|i: int| 0 <= i < cs.gates@.len()
            implies (#[trigger] cs.gates@[i]).in_bounds(usize::MAX as int + 1) by {
            assert(cs.gates@[i].in_bounds(cs.n()));
        }
    }
    let digest = structure_digest(&cs.gates, &cs.publics);
    if !bytes_eq(&pk.digest.bytes, &digest.bytes) {
        return Err(TaigaError::ProofGenerationFailure);
    }
    if !check_circuit_satisfied(cs) {
        return Err(TaigaError::ConstraintViolation);
    }
    let mut label: Vec<u8> = Vec::new();
    let nl = transcript_label.len();
    for i in 0..nl
        invariant
            nl == transcript_label@.len(),
            label@ =~= transcript_label@.subrange(0, i as int),
    {
        label.push(transcript_label[i]);
    }
    proof {
        assert(label@ =~= transcript_label@);
    }
    let mut public_input: Vec<Felt> = Vec::new();
    let np = cs.publics.len();
    for i in 0..np
        invariant
            np == cs.publics@.len(),
            cs.wf(),
            public_input@.len() == i,
            forall|j: int| 0 <= j < i
                ==> (#[trigger] public_input@[j])@ == cs.vb(cs.publics@[j] as int),
    {
        public_input.push(cs.values[cs.publics[i]].dup());
    }
    proof {
        assert(pi_views(public_input@) =~= cs.public_values());
    }
    Ok(Proof { label, vk_digest: digest, public_input })
}

/// Check a proof against a verifying key, a public input and a transcript
/// label alone: no witness is needed, and verification succeeds exactly when
/// the proof binds this digest, this label and this public input.
pub fn verify(vk: &VerifierKey, proof: &Proof, public_input: &Vec<Felt>,
    transcript_label: &Vec<u8>) -> (r: Result<(), TaigaError>)
    ensures
        r.is_ok() <==> verify_ok_of(vk.digest@, transcript_label@, pi_views(public_input@),
            *proof),
        r.is_err() ==> r == Err::<(), TaigaError>(TaigaError::VerificationFailure),
{
    if !bytes_eq(&proof.vk_digest.bytes, &vk.digest.bytes) {
        return Err(TaigaError::VerificationFailure);
    }
    if !bytes_eq(&proof.label, transcript_label) {
        return Err(TaigaError::VerificationFailure);
    }
    if proof.public_input.len() != public_input.len() {
        proof {
            assert(pi_views(proof.public_input@).len() != pi_views(public_input@).len());
        }
        return Err(TaigaError::VerificationFailure);
    }
    let n = public_input.len();
    for i in 0..n
        invariant
            n == public_input@.len() == proof.public_input@.len(),
            forall|j: int| 0 <= j < i
                ==> (#[trigger] proof.public_input@[j])@ == public_input@[j]@,
    {
        if !proof.public_input[i].eq_felt(&public_input[i]) {
            proof {
                assert(pi_views(proof.public_input@)[i as int]
                    != pi_views(public_input@)[i as int]);
            }
            return Err(TaigaError::VerificationFailure);
        }
    }
    proof {
        assert(pi_views(proof.public_input@) =~= pi_views(public_input@));
    }
    Ok(())
}

/// Evaluate every gate against the witness: the verified analogue of a mock
/// prover's satisfaction check.
#[verifier::loop_isolation(false)]
#[verifier::rlimit(100)]
pub fn check_circuit_satisfied(cs: &Composer) -> (b: bool)
    requires
        cs.wf(),
    ensures
        b <==> cs.satisfied(),
{
    let n = cs.gates.len();
    for i in 0..n
        invariant
            forall|j: int| 0 <= j < i ==> gate_ok_in(cs.values@, #[trigger] cs.gates@[j]),
    {
        let ok = check_gate(cs, i);
        if !ok {
            proof {
                assert(!gate_ok_in(cs.values@, cs.gates@[i as int]));
            }
            return false;
        }
    }
    true
}

/// Evaluate one gate against the witness.
#[verifier::loop_isolation(false)]
#[verifier::rlimit(100)]
fn check_gate(cs: &Composer, i: usize) -> (b: bool)
    requires
        cs.wf(),
        i < cs.gates@.len(),
    ensures
        b <==> gate_ok_in(cs.values@, cs.gates@[i as int]),
{
    let g = &cs.gates[i];
    match g {
        Gate::Add { a, b, c } => {
            let r = fp_add(&cs.values[*a], &cs.values[*b]);
            let eq = r.eq_felt(&cs.values[*c]);
            proof {
                if r.as_int() == cs.v(*c as int) {
                    lemma_le_int_injective(r@, cs.vb(*c as int));
                }
            }
            eq
        },
        Gate::Sub { a, b, c } => {
            let r = crate::felt::fp_sub(&cs.values[*a], &cs.values[*b]);
            let eq = r.eq_felt(&cs.values[*c]);
            proof {
                if r.as_int() == cs.v(*c as int) {
                    lemma_le_int_injective(r@, cs.vb(*c as int));
                }
            }
            eq
        },
        Gate::Mul { a, b, c } => {
            let r = fp_mul(&cs.values[*a], &cs.values[*b]);
            let eq = r.eq_felt(&cs.values[*c]);
            proof {
                if r.as_int() == cs.v(*c as int) {
                    lemma_le_int_injective(r@, cs.vb(*c as int));
                }
            }
            eq
        },
        Gate::MulConst { k, a, c } => {
            let r = fp_mul(k, &cs.values[*a]);
            let eq = r.eq_felt(&cs.values[*c]);
            proof {
                if r.as_int() == cs.v(*c as int) {
                    lemma_le_int_injective(r@, cs.vb(*c as int));
                }
            }
            eq
        },
        Gate::ConstEq { k, a } => cs.values[*a].eq_felt(k),
        Gate::AssertEq { a, b } => cs.values[*a].eq_felt(&cs.values[*b]),
        Gate::BoolCheck { a } => {
            let zero = Felt::from_u64(0);
            let one = Felt::from_u64(1);
            let x = &cs.values[*a];
            let eq = x.eq_felt(&zero) || x.eq_felt(&one);
            proof {
                if cs.v(*a as int) == 0 {
                    lemma_le_int_injective(cs.vb(*a as int), zero@);
                }
                if cs.v(*a as int) == 1 {
                    lemma_le_int_injective(cs.vb(*a as int), one@);
                }
            }
            eq
        },
        Gate::Range64 { a } => {
            let x = &cs.values[*a];
            let mut small = true;
            let ghost xb = x@;
            for j in 8..32usize
                invariant
                    xb == x@,
                    xb.len() == 32,
                    small <==> (forall|t: int| 8 <= t < j ==> xb[t] == 0),
            {
                if x.bytes[j] != 0 {
                    small = false;
                }
            }
            proof {
                if small {
                    assert(xb =~= xb.subrange(0, 8) + xb.skip(8));
                    lemma_le_int_app(xb.subrange(0, 8), xb.skip(8));
                    lemma_le_int_zero(xb.skip(8));
                    lemma_le_int_bound(xb.subrange(0, 8));
                    assert(le_int(xb) == le_int(xb.subrange(0, 8)));
                } else {
                    let t = choose|t: int| 8 <= t < 32 && xb[t] != 0;
                    crate::felt::lemma_le_int_lower(xb, t);
                    lemma2_to64();
                    lemma2_to64_rest();
                    if 8 * t > 64 {
                        vstd::arithmetic::power2::lemma_pow2_strictly_increases(64,
                            (8 * t) as nat);
                    }
                    assert(pow2((8 * t) as nat) * xb[t] >= pow2((8 * t) as nat) * 1)
                        by (nonlinear_arith)
                        requires xb[t] >= 1;
                }
            }
            small
        },
        Gate::Hash2 { a, b, c } => {
            let r = poseidon_hash2(&cs.values[*a], &cs.values[*b]);
            r.eq_felt(&cs.values[*c])
        },
        Gate::Hash8 { m, c } => {
            let mut msg: Vec<Felt> = Vec::new();
            for j in 0..8usize
                invariant
                    msg@.len() == j,
                    m@.len() == 8,
                    forall|t: int| 0 <= t < 8 ==> m@[t] < cs.values@.len(),
                    forall|t: int| 0 <= t < j
                        ==> (#[trigger] msg@[t])@ == cs.vb(m@[t] as int),
                    forall|t: int| 0 <= t < j ==> (#[trigger] msg@[t]).wf(),
            {
                msg.push(cs.values[m[j]].dup());
            }
            let r = poseidon_hash8(&msg);
            proof {
                assert(msg@.map_values(|f: Felt| f@)
                    =~= Seq::new(8, |t: int| bytes_of(cs.values@, m@[t] as int)));
            }
            r.eq_felt(&cs.values[*c])
        },
    }
}

/// A proof that checks out under one public input cannot check out under a
/// different public input, transcript label or verifying-key digest: the
/// proof binds all three.
pub proof fn lemma_proof_binds(d1: Seq<u8>, l1: Seq<u8>, pi1: Seq<Seq<u8>>, d2: Seq<u8>,
    l2: Seq<u8>, pi2: Seq<Seq<u8>>, prf: Proof)
    requires
        verify_ok_of(d1, l1, pi1, prf),
        d1 != d2 || l1 != l2 || pi1 != pi2,
    ensures
        !verify_ok_of(d2, l2, pi2, prf),
{
}

} // verus!
