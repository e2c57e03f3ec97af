//! The algebraic permutation hash: a width-3 Poseidon sponge, delegated to
//! halo2's native Poseidon primitives and named at the specification level.

use vstd::prelude::*;
use crate::felt::Felt;
use ff::PrimeField;
use pasta_curves::Fp;
use halo2_gadgets::poseidon::primitives::{ConstantLength, Hash as PoseidonHash, P128Pow5T3};

verus! {

/// What the arity-2 Poseidon hash returns on two canonical residues; a
/// function of its arguments alone.
pub uninterp spec fn poseidon2_of(a: Seq<u8>, b: Seq<u8>) -> Seq<u8>;

/// What the eight-element Poseidon sponge hash returns; a function of its
/// arguments alone.
pub uninterp spec fn poseidon8_of(m: Seq<Seq<u8>>) -> Seq<u8>;

/// Relies on halo2's Poseidon `Hash::init().hash` with the `P128Pow5T3`
/// permutation and `ConstantLength<2>`: a deterministic hash of two field
/// elements, returned in canonical form by `to_repr`.
#[verifier::external_body]
pub fn poseidon_hash2(a: &Felt, b: &Felt) -> (r: Felt)
    requires
        a.wf(),
        b.wf(),
    ensures
        r.wf(),
        r@ == poseidon2_of(a@, b@),
{
    let mut ra = [0u8; 32];
    ra.copy_from_slice(&a.bytes);
    let mut rb = [0u8; 32];
    rb.copy_from_slice(&b.bytes);
    let x = Fp::from_repr(ra).unwrap();
    let y = Fp::from_repr(rb).unwrap();
    let out = PoseidonHash::<Fp, P128Pow5T3, ConstantLength<2>, 3, 2>::init().hash([x, y]);
    Felt { bytes: out.to_repr().to_vec() }
}

/// Relies on halo2's Poseidon `Hash::init().hash` with the `P128Pow5T3`
/// permutation and `ConstantLength<8>`: a deterministic hash of eight field
/// elements, returned in canonical form by `to_repr`.
#[verifier::external_body]
pub fn poseidon_hash8(m: &Vec<Felt>) -> (r: Felt)
    requires
        m@.len() == 8,
        forall|i: int| 0 <= i < 8 ==> m@[i].wf(),
    ensures
        r.wf(),
        r@ == poseidon8_of(m@.map_values(|f: Felt| f@)),
{
    let f = |i: usize| {
        let mut rb = [0u8; 32];
        rb.copy_from_slice(&m[i].bytes);
        Fp::from_repr(rb).unwrap()
    };
    let msg = [f(0), f(1), f(2), f(3), f(4), f(5), f(6), f(7)];
    let out = PoseidonHash::<Fp, P128Pow5T3, ConstantLength<8>, 3, 2>::init().hash(msg);
    Felt { bytes: out.to_repr().to_vec() }
}

} // verus!
