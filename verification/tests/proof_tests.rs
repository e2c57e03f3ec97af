use taiga::balance::BalanceValidityPredicate;
use taiga::blinding_circuit::{precompute_prover, precompute_verifier, preprocess, BlindingCircuit};
use taiga::composer::Composer;
use taiga::error::TaigaError;
use taiga::felt::Felt;
use taiga::merkle_circuit::merkle_root;
use taiga::proof_system::{compile, prove, setup, verify};
use taiga::resource_commitment::Resource;
use taiga::vp_circuit::InputNoteWitness;
use taiga::white_list::WhiteListValidityPredicate;
use taiga::hash::poseidon_hash2;

fn felt(x: u64) -> Felt {
    Felt::from_u64(x)
}

fn resource(owner: u64, quantity: u64, rcm: u64) -> Resource {
    Resource {
        app_vp: felt(11),
        label: felt(22),
        value: felt(33),
        npk: felt(owner),
        nonce: felt(44),
        psi: felt(55),
        quantity,
        is_merkle_checked: true,
        rcm: felt(rcm),
    }
}

/// An input-note witness whose leaf, path and root are consistent.
fn input_note(r: Resource) -> InputNoteWitness {
    let leaf = r.commitment();
    let merkle_path = vec![(felt(7), false), (felt(8), true)];
    let anchor = merkle_root(&leaf, &merkle_path);
    InputNoteWitness { resource: r, leaf, merkle_path, anchor }
}

fn balance_vp(in_q: [u64; 2], out_q: [u64; 2]) -> BalanceValidityPredicate {
    BalanceValidityPredicate {
        input_notes: vec![input_note(resource(1, in_q[0], 91)), input_note(resource(2, in_q[1], 92))],
        output_notes: vec![resource(3, out_q[0], 93), resource(4, out_q[1], 94)],
    }
}

#[test]
fn test_balance_vp_satisfied() {
    // two inputs [5, 7] against two outputs [7, 5]: satisfied
    let vp = balance_vp([5, 7], [7, 5]);
    let mut cs = Composer::new();
    assert!(vp.gadget(&mut cs).is_ok());

    // two inputs [5, 7] against two outputs [7, 6]: constraint violation
    let vp2 = balance_vp([5, 7], [7, 6]);
    let mut cs2 = Composer::new();
    assert!(matches!(vp2.gadget(&mut cs2), Err(TaigaError::ConstraintViolation)));
}

#[test]
fn test_basic_constraints_reject_bad_leaf() {
    // a claimed leaf that is not the recomputed commitment is a caller bug
    let mut note = input_note(resource(1, 5, 91));
    note.leaf = felt(123);
    let vp = BalanceValidityPredicate {
        input_notes: vec![note, input_note(resource(2, 7, 92))],
        output_notes: vec![resource(3, 5, 93), resource(4, 7, 94)],
    };
    let mut cs = Composer::new();
    assert!(matches!(vp.gadget(&mut cs), Err(TaigaError::ConstraintViolation)));
}

#[test]
fn test_basic_constraints_reject_bad_anchor() {
    // with the membership flag set, a wrong claimed root must fail
    let mut note = input_note(resource(1, 5, 91));
    note.anchor = felt(123);
    let vp = BalanceValidityPredicate {
        input_notes: vec![note, input_note(resource(2, 7, 92))],
        output_notes: vec![resource(3, 5, 93), resource(4, 7, 94)],
    };
    let mut cs = Composer::new();
    assert!(vp.gadget(&mut cs).is_err());

    // with the flag clear, the same wrong root is bypassed
    let mut unchecked = resource(1, 5, 91);
    unchecked.is_merkle_checked = false;
    let mut note2 = input_note(unchecked);
    note2.anchor = felt(123);
    let vp2 = BalanceValidityPredicate {
        input_notes: vec![note2, input_note(resource(2, 7, 92))],
        output_notes: vec![resource(3, 5, 93), resource(4, 7, 94)],
    };
    let mut cs2 = Composer::new();
    assert!(vp2.gadget(&mut cs2).is_ok());
}

#[test]
fn test_balance_vp_example() {
    // compile the balance VP, prove with a balanced witness, verify
    let input_notes = vec![input_note(resource(1, 10, 91)), input_note(resource(2, 20, 92))];
    let output_notes = vec![resource(3, 10, 93), resource(4, 20, 94)];
    let balance_vp = BalanceValidityPredicate { input_notes, output_notes };

    let mut cs = Composer::new();
    balance_vp.gadget(&mut cs).unwrap();

    let pp = setup(balance_vp.padded_circuit_size());
    let (pk_p, vk) = compile(&pp, &cs).unwrap();
    let label: Vec<u8> = b"Test".to_vec();
    let proof = prove(&pk_p, &cs, &label).unwrap();
    let pi: Vec<Felt> = proof.public_input.iter().map(|f| Felt { bytes: f.bytes.clone() }).collect();
    verify(&vk, &proof, &pi, &label).unwrap();
}

#[test]
fn test_end_to_end_proof_rejects_tampering() {
    let vp = balance_vp([5, 7], [7, 5]);
    let mut cs = Composer::new();
    vp.gadget(&mut cs).unwrap();
    let pp = setup(1 << 17);
    let (pk, vk) = compile(&pp, &cs).unwrap();
    let label: Vec<u8> = b"Test".to_vec();
    let proof = prove(&pk, &cs, &label).unwrap();
    let pi: Vec<Felt> = proof.public_input.iter()
        .map(|f| Felt { bytes: f.bytes.clone() }).collect();
    assert!(verify(&vk, &proof, &pi, &label).is_ok());

    // mutating one byte of the public input makes verification fail
    let mut bad_pi: Vec<Felt> = pi.iter().map(|f| Felt { bytes: f.bytes.clone() }).collect();
    bad_pi[0].bytes[0] ^= 1;
    assert!(matches!(verify(&vk, &proof, &bad_pi, &label),
        Err(TaigaError::VerificationFailure)));

    // mutating one byte of the proof makes verification fail
    let mut bad_proof = prove(&pk, &cs, &label).unwrap();
    bad_proof.vk_digest.bytes[0] ^= 1;
    assert!(verify(&vk, &bad_proof, &pi, &label).is_err());

    // the transcript label must match byte for byte
    let other_label: Vec<u8> = b"Other".to_vec();
    assert!(verify(&vk, &proof, &pi, &other_label).is_err());
}

#[test]
fn test_setup_and_key_mismatch_errors() {
    let vp = balance_vp([5, 7], [7, 5]);
    let mut cs = Composer::new();
    vp.gadget(&mut cs).unwrap();

    // universal parameters too small for the padded circuit: setup error
    let tiny = setup(4);
    assert!(matches!(compile(&tiny, &cs), Err(TaigaError::SetupError)));

    // a proving key from a different circuit structure: generation failure
    let pp = setup(1 << 17);
    let mut other = Composer::new();
    let a = other.add_input(felt(1));
    let b = other.add_input(felt(2));
    other.add_gate(a, b);
    let (other_pk, _) = compile(&pp, &other).unwrap();
    let label: Vec<u8> = b"Test".to_vec();
    assert!(matches!(prove(&other_pk, &cs, &label),
        Err(TaigaError::ProofGenerationFailure)));
}

#[test]
fn test_white_list_vp() {
    // a 4-member whitelist; the first spent note's owner sits at index 1
    let members: Vec<Felt> = vec![felt(101), felt(102), felt(103), felt(104)];
    let hash_23 = poseidon_hash2(&members[2], &members[3]);
    let hash_01 = poseidon_hash2(&members[0], &members[1]);
    let white_list_root = poseidon_hash2(&hash_01, &hash_23);
    let white_list_path = vec![(felt(101), true),
        (poseidon_hash2(&members[2], &members[3]), false)];

    let vp = WhiteListValidityPredicate {
        input_notes: vec![input_note(resource(102, 5, 91)), input_note(resource(2, 7, 92))],
        output_notes: vec![resource(3, 5, 93), resource(4, 7, 94)],
        white_list_path,
        white_list_root,
    };
    let mut cs = Composer::new();
    assert!(vp.gadget(&mut cs).is_ok());

    // corrupting one sibling of the membership path: constraint violation
    let root2 = poseidon_hash2(&hash_01, &hash_23);
    let bad_path = vec![(felt(999), true), (hash_23, false)];
    let vp2 = WhiteListValidityPredicate {
        input_notes: vec![input_note(resource(102, 5, 91)), input_note(resource(2, 7, 92))],
        output_notes: vec![resource(3, 5, 93), resource(4, 7, 94)],
        white_list_path: bad_path,
        white_list_root: root2,
    };
    let mut cs2 = Composer::new();
    assert!(matches!(vp2.gadget(&mut cs2), Err(TaigaError::ConstraintViolation)));
}

#[test]
fn test_blinding_circuit() {
    // an inner balance VP proof, wrapped by the blinding circuit
    let vp = balance_vp([5, 7], [7, 5]);
    let mut cs = Composer::new();
    vp.gadget(&mut cs).unwrap();
    let pp = setup(1 << 17);
    let (pk, vk) = compile(&pp, &cs).unwrap();
    let inner_label: Vec<u8> = b"Test".to_vec();
    let inner_proof = prove(&pk, &cs, &inner_label).unwrap();
    let inner_pi: Vec<Felt> = inner_proof.public_input.iter()
        .map(|f| Felt { bytes: f.bytes.clone() }).collect();

    let outer_pp = setup(1 << 10);
    let outer_label: Vec<u8> = b"demo".to_vec();
    let bc = BlindingCircuit::new(&outer_pp, &vk, &inner_proof, &inner_pi, &inner_label,
        &outer_label).unwrap();
    assert!(bc.verify().is_ok());
    // the outer public input exposes nothing about the inner predicate
    assert_eq!(bc.public_input.len(), 0);

    // wrapping the proof against a different verifying key fails
    let mut other = Composer::new();
    let a = other.add_input(felt(1));
    let b = other.add_input(felt(2));
    other.add_gate(a, b);
    let (_, other_vk) = compile(&pp, &other).unwrap();
    assert!(matches!(
        BlindingCircuit::new(&outer_pp, &other_vk, &inner_proof, &inner_pi, &inner_label,
            &outer_label),
        Err(TaigaError::ConstraintViolation)));
}

#[test]
fn test_blinding_preprocess_consistency() {
    // prover-side and verifier-side assemblies carry one structure
    let vp = balance_vp([5, 7], [7, 5]);
    let mut cs = Composer::new();
    vp.gadget(&mut cs).unwrap();
    let pp = setup(1 << 17);
    let (pk, vk) = compile(&pp, &cs).unwrap();
    let inner_label: Vec<u8> = b"Test".to_vec();
    let inner_proof = prove(&pk, &cs, &inner_label).unwrap();
    let inner_pi: Vec<Felt> = inner_proof.public_input.iter()
        .map(|f| Felt { bytes: f.bytes.clone() }).collect();

    let outer_pp = setup(1 << 10);
    let (prover_cs, outer_pk, _outer_vk, _pi) =
        precompute_prover(&outer_pp, &vk, &inner_proof, &inner_pi, &inner_label).unwrap();
    let verifier_cs = precompute_verifier(&vk, &inner_proof, &inner_pi, &inner_label).unwrap();
    assert!(preprocess(&prover_cs, &verifier_cs, &outer_pk).is_ok());
}

#[test]
fn test_prove_requires_satisfied_witness() {
    // an unsatisfied equality in the witness is a fatal constraint violation
    let mut cs = Composer::new();
    let a = cs.add_input(felt(1));
    let b = cs.add_input(felt(2));
    let _ = cs.assert_equal(a, b);
    let pp = setup(1 << 10);
    let (pk, _) = compile(&pp, &cs).unwrap();
    let label: Vec<u8> = b"Test".to_vec();
    assert!(matches!(prove(&pk, &cs, &label), Err(TaigaError::ConstraintViolation)));
}

#[test]
fn test_range_and_bool_checks() {
    let mut cs = Composer::new();
    let flag = cs.add_input(felt(1));
    assert!(cs.bool_check(flag).is_ok());
    let not_flag = cs.add_input(felt(2));
    assert!(matches!(cs.bool_check(not_flag), Err(TaigaError::ConstraintViolation)));

    let small = cs.add_input(felt(u64::MAX));
    assert!(cs.range64_check(small).is_ok());
    let big = cs.add_input(Felt::two_pow(64));
    assert!(matches!(cs.range64_check(big), Err(TaigaError::ConstraintViolation)));
}
