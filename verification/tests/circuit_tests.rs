use taiga::composer::Composer;
use taiga::felt::{fp_add, fp_invert, fp_mul, fp_sub, Felt};
use taiga::hash::poseidon_hash2;
use taiga::merkle_circuit::{merkle_poseidon_gadget, merkle_root};
use taiga::resource_commitment::Resource;
use taiga::white_list::white_list_gadget;
use taiga::blake2s::{blake2s_iv, compression_native, Blake2sChip, Blake2sConfig};
use halo2_gadgets::poseidon::primitives::{ConstantLength, P128Pow5T3};
use ff::PrimeField;
use pasta_curves::Fp;

fn felt(x: u64) -> Felt {
    Felt::from_u64(x)
}

fn sample_resource(owner: u64, quantity: u64, rcm: u64) -> Resource {
    Resource {
        app_vp: felt(11),
        label: felt(22),
        value: felt(33),
        npk: felt(owner),
        nonce: felt(44),
        psi: felt(55),
        quantity,
        is_merkle_checked: true,
        rcm: felt(rcm),
    }
}

#[test]
fn test_hash_equivalence_poseidon() {
    // the circuit evaluation of the algebraic hash equals the native one
    for (a, b) in [(0u64, 0u64), (1, 2), (77, 1 << 40), (u64::MAX, 3)] {
        let fa = felt(a);
        let fb = felt(b);
        let native = poseidon_hash2(&fa, &fb);
        let mut cs = Composer::new();
        let va = cs.add_input(felt(a));
        let vb = cs.add_input(felt(b));
        let vc = cs.hash2_gate(va, vb);
        assert_eq!(cs.values[vc].bytes, native.bytes);
    }
}

#[test]
fn test_poseidon_wrapper_matches_primitives() {
    // the trusted wrapper agrees with halo2's own Poseidon primitives
    let fa = felt(123456789);
    let fb = felt(987654321);
    let out = poseidon_hash2(&fa, &fb);
    let mut ra = [0u8; 32];
    ra.copy_from_slice(&fa.bytes);
    let mut rb = [0u8; 32];
    rb.copy_from_slice(&fb.bytes);
    let expected = halo2_gadgets::poseidon::primitives::Hash::<Fp, P128Pow5T3,
        ConstantLength<2>, 3, 2>::init()
        .hash([Fp::from_repr(ra).unwrap(), Fp::from_repr(rb).unwrap()]);
    assert_eq!(out.bytes, expected.to_repr().to_vec());
    assert_ne!(out.bytes, fa.bytes);
}

#[test]
fn test_fp_add_wrapper() {
    let a = felt(u64::MAX);
    let b = felt(1);
    let s = fp_add(&a, &b);
    // 2^64 as canonical little-endian bytes: one bit at byte 8
    let mut expected = vec![0u8; 32];
    expected[8] = 1;
    assert_eq!(s.bytes, expected);
    assert_eq!(felt(5).bytes[0], 5);
}

#[test]
fn test_hash_equivalence_blake2s() {
    // the circuit evaluation of the compression hash equals the native one
    let config = Blake2sConfig::configure();
    let chip = Blake2sChip::construct(Blake2sConfig::configure());
    let state: Vec<Felt> = (0..8u64).map(|i| felt(i + 100)).collect();
    let message: Vec<Felt> = (0..16u64).map(|i| felt(i * i + 1)).collect();
    let native = compression_native(&config, &state, &message);

    let mut cs = Composer::new();
    let mut state_vars = Vec::new();
    for i in 0..8u64 {
        state_vars.push(cs.add_input(felt(i + 100)));
    }
    let mut message_vars = Vec::new();
    for i in 0..16u64 {
        message_vars.push(cs.add_input(felt(i * i + 1)));
    }
    let out = chip.compression_function(&mut cs, &state_vars, &message_vars);
    assert_eq!(out.len(), 8);
    for i in 0..8 {
        assert_eq!(cs.values[out[i]].bytes, native[i].bytes);
    }
}

#[test]
fn test_blake2s_iv_and_compression_from_iv() {
    // the published initialization vector holds the fixed eight words
    let iv = blake2s_iv();
    let words: [u64; 8] = [
        0x6A09E667, 0xBB67AE85, 0x3C6EF372, 0xA54FF53A,
        0x510E527F, 0x9B05688C, 0x1F83D9AB, 0x5BE0CD19,
    ];
    for i in 0..8 {
        assert_eq!(iv[i].bytes, felt(words[i]).bytes);
    }
    // compressing from the IV agrees between the two evaluation paths
    let config = Blake2sConfig::configure();
    let chip = Blake2sChip::construct(Blake2sConfig::configure());
    let message: Vec<Felt> = (0..16u64).map(|i| felt(i + 1)).collect();
    let native = compression_native(&config, &iv, &message);
    let mut cs = Composer::new();
    let mut state_vars = Vec::new();
    for i in 0..8 {
        state_vars.push(cs.add_input(felt(words[i])));
    }
    let mut message_vars = Vec::new();
    for i in 0..16u64 {
        message_vars.push(cs.add_input(felt(i + 1)));
    }
    let out = chip.compression_function(&mut cs, &state_vars, &message_vars);
    for i in 0..8 {
        assert_eq!(cs.values[out[i]].bytes, native[i].bytes);
    }
}

#[test]
fn test_merkle_round_trip() {
    // the gadget's reconstructed root equals the native recomputation
    let leaf = felt(42);
    let path = vec![(felt(7), false), (felt(8), true), (felt(9), false)];
    let native = merkle_root(&leaf, &path);

    let mut cs = Composer::new();
    let leaf_var = cs.add_input(felt(42));
    let root_var = merkle_poseidon_gadget(&mut cs, leaf_var, &path);
    assert_eq!(cs.values[root_var].bytes, native.bytes);

    // flipping one direction bit changes the reconstructed root
    let flipped = vec![(felt(7), true), (felt(8), true), (felt(9), false)];
    let flipped_root = merkle_root(&leaf, &flipped);
    assert_ne!(flipped_root.bytes, native.bytes);

    // corrupting one sibling changes the reconstructed root
    let corrupted = vec![(felt(7), false), (felt(1000), true), (felt(9), false)];
    let corrupted_root = merkle_root(&leaf, &corrupted);
    assert_ne!(corrupted_root.bytes, native.bytes);
}

#[test]
fn test_halo2_merkle_circuit() {
    // witness a leaf, run the membership gadget, and constrain the result
    // against the natively recomputed root; the circuit must be satisfied
    let leaf = felt(961748927);
    let path = vec![
        (felt(3), false),
        (felt(1), true),
        (felt(4), true),
        (felt(1), false),
        (felt(5), false),
        (felt(9), true),
        (felt(2), false),
        (felt(6), true),
    ];
    let expected_root = merkle_root(&leaf, &path);

    let mut cs = Composer::new();
    let leaf_var = cs.add_input(felt(961748927));
    let root = merkle_poseidon_gadget(&mut cs, leaf_var, &path);
    let expected_var = cs.add_input(expected_root);
    let constrained = cs.assert_equal(root, expected_var);
    assert!(constrained.is_ok());
    assert!(taiga::proof_system::check_circuit_satisfied(&cs));
}

#[test]
fn test_commitment_determinism_and_hiding() {
    // committing the same fields twice with the same randomizer agrees
    let a = sample_resource(9, 120, 777);
    let b = sample_resource(9, 120, 777);
    assert_eq!(a.commitment().bytes, b.commitment().bytes);

    // changing only the randomizer changes the commitment
    let c = sample_resource(9, 120, 778);
    assert_ne!(a.commitment().bytes, c.commitment().bytes);

    // the in-circuit recomputation matches the native commitment
    let mut cs = Composer::new();
    let vars = taiga::resource_commitment::witness_resource(&mut cs, &a);
    let cm = taiga::resource_commitment::resource_commit(&mut cs, vars).unwrap();
    assert_eq!(cs.values[cm].bytes, a.commitment().bytes);
}

#[test]
fn test_nullifier_derivation() {
    let a = sample_resource(9, 120, 777);
    let expected = poseidon_hash2(&a.npk, &a.nonce);
    assert_eq!(a.nullifier().bytes, expected.bytes);
}

#[test]
fn test_white_list_gadget() {
    // four whitelist members; the note owner sits at index 1 with value 12
    let members: Vec<Felt> = vec![felt(101), felt(102), felt(103), felt(104)];
    let hash_01 = poseidon_hash2(&members[0], &members[1]);
    let hash_23 = poseidon_hash2(&members[2], &members[3]);
    let mk_root = poseidon_hash2(&hash_01, &hash_23);

    let note = sample_resource(102, 12, 5);

    // the owner's 2-level path: sibling 101 on the left, then hash_23
    let merkle_path = vec![(felt(101), true), (hash_23, false)];

    let mut cs = Composer::new();
    let owner_var = cs.add_input(Felt { bytes: note.npk.bytes.clone() });
    let root_var = white_list_gadget(&mut cs, owner_var, &merkle_path);
    let expected_var = cs.add_input(mk_root);
    assert!(cs.assert_equal(expected_var, root_var).is_ok());
    assert!(taiga::proof_system::check_circuit_satisfied(&cs));

    // corrupting one sibling makes the membership check fail
    let bad_path = vec![(felt(999), true), (poseidon_hash2(&members[2], &members[3]), false)];
    let mut cs2 = Composer::new();
    let owner_var2 = cs2.add_input(felt(102));
    let root_var2 = white_list_gadget(&mut cs2, owner_var2, &bad_path);
    let expected_var2 = cs2.add_input(poseidon_hash2(&hash_01,
        &poseidon_hash2(&members[2], &members[3])));
    assert!(cs2.assert_equal(expected_var2, root_var2).is_err());
}

#[test]
fn test_field_arithmetic_wrappers() {
    // multiplication of small residues lands on the expected small residue
    let prod = fp_mul(&felt(3), &felt(5));
    assert_eq!(prod.bytes, felt(15).bytes);

    // subtraction round-trips through addition even when it wraps
    let diff = fp_sub(&felt(5), &felt(7));
    assert_ne!(diff.bytes, felt(5).bytes);
    let back = fp_add(&diff, &felt(7));
    assert_eq!(back.bytes, felt(5).bytes);

    // an inverse really is a multiplicative inverse
    let x = felt(123456789);
    let inv = fp_invert(&x);
    assert_eq!(fp_mul(&x, &inv).bytes, felt(1).bytes);

    // powers of two take the expected canonical form
    assert_eq!(Felt::two_pow(8).bytes, felt(256).bytes);
    assert_eq!(Felt::zero().bytes, felt(0).bytes);
}
