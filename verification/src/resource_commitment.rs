//! The resource commitment gadget: a boolean flag and a 64-bit quantity are
//! packed into one field element with a `2^128` separation constant, and the
//! packed value is absorbed with the remaining resource fields by the
//! eight-element hash.

use vstd::prelude::*;
use vstd::arithmetic::power2::{pow2, lemma_pow2_adds, lemma_pow2_strictly_increases, lemma2_to64,
    lemma2_to64_rest};
use crate::felt::{
    Felt, p, canon_bytes, lemma_canon_bytes, lemma_mod_small, lemma_pow2_below_p,
    lemma_le_int_injective, fp_add,
};
use crate::hash::{poseidon2_of, poseidon8_of, poseidon_hash2, poseidon_hash8};
use crate::composer::{Composer, lemma_extends_preserves, lemma_extends_trans};
use crate::error::TaigaError;

verus! {

/// A private resource record: identity, ownership and quantity data together
/// with the randomizers that hide and individualize its commitment.
pub struct Resource {
    /// The application's validity-predicate identity.
    pub app_vp: Felt,
    /// The application label.
    pub label: Felt,
    /// Application data carried by the resource.
    pub value: Felt,
    /// The owner-derived nullifier public key.
    pub npk: Felt,
    /// The nullifier-derivation nonce, `rho`.
    pub nonce: Felt,
    /// The uniqueness randomizer, `psi`.
    pub psi: Felt,
    /// The bounded quantity.
    pub quantity: u64,
    /// Whether Merkle membership must be enforced when spending.
    pub is_merkle_checked: bool,
    /// The commitment randomizer, `rcm`.
    pub rcm: Felt,
}

/// The packed flag-and-quantity residue: `quantity + is_merkle_checked * 2^128`.
pub open spec fn compose_of(quantity: u64, is_merkle_checked: bool) -> int {
    quantity + if is_merkle_checked { pow2(128) as int } else { 0 }
}

impl Resource {
    pub open spec fn wf(self) -> bool {
        self.app_vp.wf() && self.label.wf() && self.value.wf() && self.npk.wf()
            && self.nonce.wf() && self.psi.wf() && self.rcm.wf()
    }

    /// The byte views of the eight values the commitment hash absorbs.
    pub open spec fn commit_message(self) -> Seq<Seq<u8>> {
        seq![
            self.app_vp@,
            self.label@,
            self.value@,
            self.npk@,
            self.nonce@,
            self.psi@,
            canon_bytes(compose_of(self.quantity, self.is_merkle_checked)),
            self.rcm@,
        ]
    }
}

/// The commitment a resource's fields determine.
pub open spec fn resource_commit_of(r: Resource) -> Seq<u8> {
    poseidon8_of(r.commit_message())
}

/// The nullifier a resource's spend-time secrets determine: the arity-2 hash
/// of the owner-derived key and the nonce.
pub open spec fn nullifier_of(r: Resource) -> Seq<u8> {
    poseidon2_of(r.npk@, r.nonce@)
}

/// The packed value stays below the modulus.
pub proof fn lemma_compose_in_range(quantity: u64, is_merkle_checked: bool)
    ensures
        0 <= compose_of(quantity, is_merkle_checked) < p(),
        quantity < pow2(64),
{
    lemma2_to64();
    lemma2_to64_rest();
    lemma_pow2_adds(128, 1);
    lemma_pow2_strictly_increases(64, 128);
    lemma_pow2_below_p(129);
}

/// The packed field element, built natively.
pub fn compose_felt(quantity: u64, is_merkle_checked: bool) -> (r: Felt)
    ensures
        r.wf(),
        r.as_int() == compose_of(quantity, is_merkle_checked),
{
    let q = Felt::from_u64(quantity);
    let flag = if is_merkle_checked {
        Felt::two_pow(128)
    } else {
        Felt::zero()
    };
    let r = fp_add(&q, &flag);
    proof {
        lemma_compose_in_range(quantity, is_merkle_checked);
        lemma_mod_small(compose_of(quantity, is_merkle_checked));
    }
    r
}

impl Resource {
    /// The native resource commitment: deterministic in the fields, hiding
    /// under `rcm`.
    pub fn commitment(&self) -> (r: Felt)
        requires
            self.wf(),
        ensures
            r.wf(),
            r@ == resource_commit_of(*self),
    {
        let compose = compose_felt(self.quantity, self.is_merkle_checked);
        let mut msg: Vec<Felt> = Vec::new();
        msg.push(self.app_vp.dup());
        msg.push(self.label.dup());
        msg.push(self.value.dup());
        msg.push(self.npk.dup());
        msg.push(self.nonce.dup());
        msg.push(self.psi.dup());
        proof {
            lemma_compose_in_range(self.quantity, self.is_merkle_checked);
            lemma_canon_bytes(compose);
        }
        msg.push(compose);
        msg.push(self.rcm.dup());
        let r = poseidon_hash8(&msg);
        proof {
            assert(msg@.map_values(|f: Felt| f@) =~= self.commit_message());
        }
        r
    }

    /// The native nullifier derivation.
    pub fn nullifier(&self) -> (r: Felt)
        requires
            self.wf(),
        ensures
            r.wf(),
            r@ == nullifier_of(*self),
    {
        poseidon_hash2(&self.npk, &self.nonce)
    }
}

/// The variables a resource's fields occupy inside a circuit.
#[derive(Clone, Copy)]
pub struct ResourceVars {
    pub app_vp: usize,
    pub label: usize,
    pub value: usize,
    pub npk: usize,
    pub nonce: usize,
    pub psi: usize,
    pub quantity: usize,
    pub is_merkle_checked: usize,
    pub rcm: usize,
}

impl ResourceVars {
    pub open spec fn in_bounds(self, n: int) -> bool {
        self.app_vp < n && self.label < n && self.value < n && self.npk < n
            && self.nonce < n && self.psi < n && self.quantity < n
            && self.is_merkle_checked < n && self.rcm < n
    }

    /// The resource the composer's witness assigns to these variables.
    pub open spec fn holds(self, cs: Composer, r: Resource) -> bool {
        &&& cs.vb(self.app_vp as int) == r.app_vp@
        &&& cs.vb(self.label as int) == r.label@
        &&& cs.vb(self.value as int) == r.value@
        &&& cs.vb(self.npk as int) == r.npk@
        &&& cs.vb(self.nonce as int) == r.nonce@
        &&& cs.vb(self.psi as int) == r.psi@
        &&& cs.v(self.quantity as int) == r.quantity as int
        &&& cs.v(self.is_merkle_checked as int) == if r.is_merkle_checked { 1int } else { 0int }
        &&& cs.vb(self.rcm as int) == r.rcm@
    }
}

/// Extension of the composer keeps what resource variables hold.
pub proof fn lemma_holds_preserved(prev: Composer, next: Composer, vars: ResourceVars, r: Resource)
    requires
        next.extends(prev),
        vars.in_bounds(prev.n()),
        vars.holds(prev, r),
    ensures
        vars.holds(next, r),
        vars.in_bounds(next.n()),
{
    lemma_extends_preserves(prev, next, vars.app_vp as int);
    lemma_extends_preserves(prev, next, vars.label as int);
    lemma_extends_preserves(prev, next, vars.value as int);
    lemma_extends_preserves(prev, next, vars.npk as int);
    lemma_extends_preserves(prev, next, vars.nonce as int);
    lemma_extends_preserves(prev, next, vars.psi as int);
    lemma_extends_preserves(prev, next, vars.quantity as int);
    lemma_extends_preserves(prev, next, vars.is_merkle_checked as int);
    lemma_extends_preserves(prev, next, vars.rcm as int);
    assert(prev.values@.len() <= next.values@.len());
}

/// Witness all fields of a resource into fresh circuit variables.
#[verifier::rlimit(60)]
pub fn witness_resource(cs: &mut Composer, r: &Resource) -> (vars: ResourceVars)
    requires
        old(cs).wf(),
        r.wf(),
    ensures
        final(cs).wf(),
        final(cs).extends(*old(cs)),
        final(cs).publics@ == old(cs).publics@,
        final(cs).gates@ == old(cs).gates@,
        vars.in_bounds(final(cs).n()),
        vars.holds(*final(cs), *r),
        old(cs).satisfied() ==> final(cs).satisfied(),
{
    let ghost c0 = *cs;
    let app_vp = cs.add_input(r.app_vp.dup());
    let label = cs.add_input(r.label.dup());
    let value = cs.add_input(r.value.dup());
    let npk = cs.add_input(r.npk.dup());
    let nonce = cs.add_input(r.nonce.dup());
    let psi = cs.add_input(r.psi.dup());
    let quantity = cs.add_input(Felt::from_u64(r.quantity));
    let is_merkle_checked = cs.add_input(if r.is_merkle_checked {
        Felt::from_u64(1)
    } else {
        Felt::from_u64(0)
    });
    let rcm = cs.add_input(r.rcm.dup());
    ResourceVars { app_vp, label, value, npk, nonce, psi, quantity, is_merkle_checked, rcm }
}

/// The resource commitment gadget: emits the boolean check on the flag, the
/// 64-bit range check on the quantity, the composition gates and the
/// eight-element hash gate; the returned variable carries the commitment.
/// A witness with a non-boolean flag or an overwide quantity is a fatal
/// constraint violation.
pub fn resource_commit(cs: &mut Composer, vars: ResourceVars) -> (out: Result<usize, TaigaError>)
    requires
        old(cs).wf(),
        vars.in_bounds(old(cs).n()),
    ensures
        final(cs).wf(),
        final(cs).extends(*old(cs)),
        final(cs).publics@ == old(cs).publics@,
        out.is_ok() <==> ((old(cs).v(vars.is_merkle_checked as int) == 0
            || old(cs).v(vars.is_merkle_checked as int) == 1)
            && old(cs).v(vars.quantity as int) < pow2(64)),
        out.is_err() ==> out == Err::<usize, TaigaError>(TaigaError::ConstraintViolation),
        out matches Ok(c) ==> c < final(cs).n()
            && final(cs).vb(c as int) == poseidon8_of(seq![
                old(cs).vb(vars.app_vp as int),
                old(cs).vb(vars.label as int),
                old(cs).vb(vars.value as int),
                old(cs).vb(vars.npk as int),
                old(cs).vb(vars.nonce as int),
                old(cs).vb(vars.psi as int),
                canon_bytes(old(cs).v(vars.quantity as int)
                    + old(cs).v(vars.is_merkle_checked as int) * pow2(128)),
                old(cs).vb(vars.rcm as int),
            ]),
        (old(cs).satisfied() && out.is_ok()) ==> final(cs).satisfied(),
{
    let ghost c0 = *cs;
    let flag_ok = cs.bool_check(vars.is_merkle_checked);
    let ghost c1 = *cs;
    let range_ok = cs.range64_check(vars.quantity);
    let ghost c2 = *cs;
    let sep = Felt::two_pow(128);
    let shifted = cs.mul_const_gate(&sep, vars.is_merkle_checked);
    let ghost c3 = *cs;
    let compose = cs.add_gate(vars.quantity, shifted);
    let ghost c4 = *cs;
    let mut m: Vec<usize> = Vec::new();
    m.push(vars.app_vp);
    m.push(vars.label);
    m.push(vars.value);
    m.push(vars.npk);
    m.push(vars.nonce);
    m.push(vars.psi);
    m.push(compose);
    m.push(vars.rcm);
    let c = cs.hash8_gate(&m);
    proof {
        lemma_extends_trans(c0, c1, c2);
        lemma_extends_trans(c0, c2, c3);
        lemma_extends_trans(c0, c3, c4);
        lemma_extends_trans(c0, c4, *cs);
    }
    if flag_ok.is_err() || range_ok.is_err() {
        return Err(TaigaError::ConstraintViolation);
    }
    proof {
        let pp = p();
        let vf = c0.v(vars.is_merkle_checked as int);
        let vq = c0.v(vars.quantity as int);
        lemma_extends_preserves(c0, c2, vars.is_merkle_checked as int);
        lemma_extends_preserves(c0, c3, vars.quantity as int);
        lemma_extends_preserves(c3, c4, vars.quantity as int);
        lemma2_to64();
        lemma2_to64_rest();
        lemma_pow2_adds(128, 1);
        lemma_pow2_strictly_increases(64, 128);
        lemma_pow2_below_p(129);
        assert(sep.as_int() == pow2(128));
        assert(c3.v(shifted as int) == (pow2(128) * vf) % pp);
        assert(pow2(128) * vf == vf * pow2(128)) by (nonlinear_arith);
        assert(0 <= vf * pow2(128) <= pow2(128)) by (nonlinear_arith)
            requires 0 <= vf <= 1;
        lemma_mod_small(vf * pow2(128));
        assert(c4.v(compose as int) == (vq + vf * pow2(128)) % pp);
        lemma_mod_small(vq + vf * pow2(128));
        assert(c4.v(compose as int) == vq + vf * pow2(128));
        // the hash message matches the packed-value bytes
        let cb = canon_bytes(vq + vf * pow2(128));
        assert(c4.vb(compose as int) == cb) by {
            let f = c4.values@[compose as int];
            assert(f.wf());
            lemma_canon_bytes(f);
        }
        lemma_extends_preserves(c0, c4, vars.app_vp as int);
        lemma_extends_preserves(c0, c4, vars.label as int);
        lemma_extends_preserves(c0, c4, vars.value as int);
        lemma_extends_preserves(c0, c4, vars.npk as int);
        lemma_extends_preserves(c0, c4, vars.nonce as int);
        lemma_extends_preserves(c0, c4, vars.psi as int);
        lemma_extends_preserves(c0, c4, vars.rcm as int);
        assert(Seq::new(8, |i: int| c4.vb(m@[i] as int)) =~= seq![
            c0.vb(vars.app_vp as int),
            c0.vb(vars.label as int),
            c0.vb(vars.value as int),
            c0.vb(vars.npk as int),
            c0.vb(vars.nonce as int),
            c0.vb(vars.psi as int),
            cb,
            c0.vb(vars.rcm as int),
        ]);
    }
    Ok(c)
}

/// Two resources with equal fields commit to the same value: the commitment
/// is a deterministic function of the resource's fields.
pub proof fn lemma_commitment_deterministic(a: Resource, b: Resource)
    requires
        a.app_vp@ == b.app_vp@,
        a.label@ == b.label@,
        a.value@ == b.value@,
        a.npk@ == b.npk@,
        a.nonce@ == b.nonce@,
        a.psi@ == b.psi@,
        a.quantity == b.quantity,
        a.is_merkle_checked == b.is_merkle_checked,
        a.rcm@ == b.rcm@,
    ensures
        resource_commit_of(a) == resource_commit_of(b),
{
    assert(a.commit_message() =~= b.commit_message());
}

} // verus!
