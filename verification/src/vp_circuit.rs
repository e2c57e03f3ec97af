//! The validity-predicate circuit abstraction: mandatory note-integrity
//! constraints shared by every VP, composed with a pluggable,
//! application-supplied constraint set.

use vstd::prelude::*;
use vstd::arithmetic::power2::pow2;
use crate::felt::{Felt, p, lemma_mod_small, lemma_mod_diff, lemma_le_int_injective,
    lemma_le_int_nonneg, canon_bytes};
use crate::hash::{poseidon2_of, poseidon8_of};
use crate::composer::{Composer, lemma_extends_preserves, lemma_extends_trans,
    lemma_public_values_prefix};
use crate::merkle_circuit::{path_view, path_wf, merkle_root_of, merkle_poseidon_gadget};
use crate::resource_commitment::{Resource, ResourceVars, compose_of, resource_commit_of,
    nullifier_of, witness_resource, resource_commit, lemma_compose_in_range,
    lemma_holds_preserved};
use crate::error::TaigaError;

verus! {

/// The configured number of input and of output notes per transition.
pub const NUM_NOTE: usize = 2;

/// One spent note together with the externally supplied membership data: the
/// claimed leaf, the sibling path, and the claimed root.
pub struct InputNoteWitness {
    pub resource: Resource,
    pub leaf: Felt,
    pub merkle_path: Vec<(Felt, bool)>,
    pub anchor: Felt,
}

impl InputNoteWitness {
    pub open spec fn wf(self) -> bool {
        self.resource.wf() && self.leaf.wf() && path_wf(self.merkle_path@) && self.anchor.wf()
    }

    /// The integrity conditions the basic constraints enforce on this note:
    /// the commitment recomputed from the fields equals the supplied leaf,
    /// and, when membership is enforced, the recomputed root equals the
    /// supplied one.
    pub open spec fn integrity_ok(self) -> bool {
        &&& resource_commit_of(self.resource) == self.leaf@
        &&& (self.resource.is_merkle_checked
            ==> merkle_root_of(self.leaf@, path_view(self.merkle_path@)) == self.anchor@)
    }
}

/// The circuit variables the basic constraints produce for one spent note.
#[derive(Clone, Copy)]
pub struct SpendNoteVar {
    pub resource: ResourceVars,
    pub cm: usize,
    pub nf: usize,
    pub anchor: usize,
}

impl SpendNoteVar {
    pub open spec fn in_bounds(self, n: int) -> bool {
        self.resource.in_bounds(n) && self.cm < n && self.nf < n && self.anchor < n
    }
}

/// The circuit variables the basic constraints produce for one created note.
#[derive(Clone, Copy)]
pub struct OutputNoteVar {
    pub resource: ResourceVars,
    pub cm: usize,
}

impl OutputNoteVar {
    pub open spec fn in_bounds(self, n: int) -> bool {
        self.resource.in_bounds(n) && self.cm < n
    }
}

/// All spent-note witnesses are well formed.
pub open spec fn inputs_wf(inputs: Seq<InputNoteWitness>) -> bool {
    forall|i: int| 0 <= i < inputs.len() ==> (#[trigger] inputs[i]).wf()
}

/// All created notes are well formed.
pub open spec fn outputs_wf(outputs: Seq<Resource>) -> bool {
    forall|i: int| 0 <= i < outputs.len() ==> (#[trigger] outputs[i]).wf()
}

/// Every spent note meets its integrity conditions.
pub open spec fn inputs_integrity_ok(inputs: Seq<InputNoteWitness>) -> bool {
    forall|i: int| 0 <= i < inputs.len() ==> (#[trigger] inputs[i]).integrity_ok()
}

/// The fixed public-input layout of a VP circuit, interleaved in note
/// order: note index i exposes the spent note's nullifier and claimed root
/// and then the created note's commitment, before note index i+1 exposes
/// anything. The positions depend on the note count alone.
pub open spec fn vp_public_spec(inputs: Seq<InputNoteWitness>, outputs: Seq<Resource>)
    -> Seq<Seq<u8>> {
    Seq::new(3 * inputs.len(), |j: int| if j % 3 == 0 {
        nullifier_of(inputs[j / 3].resource)
    } else if j % 3 == 1 {
        inputs[j / 3].anchor@
    } else {
        resource_commit_of(outputs[j / 3])
    })
}

/// Witness a spent note's fields, recompute its commitment in-circuit and
/// constrain it equal to the externally supplied leaf.
#[verifier::rlimit(50)]
fn spend_commitment_gadget(cs: &mut Composer, w: &InputNoteWitness)
    -> (r: Result<(ResourceVars, usize, usize), TaigaError>)
    requires
        old(cs).wf(),
        w.wf(),
    ensures
        final(cs).wf(),
        final(cs).extends(*old(cs)),
        final(cs).publics@ == old(cs).publics@,
        r.is_ok() <==> resource_commit_of(w.resource) == w.leaf@,
        r.is_err() ==> r == Err::<(ResourceVars, usize, usize), TaigaError>(
            TaigaError::ConstraintViolation),
        r matches Ok(t) ==> {
            &&& t.0.in_bounds(final(cs).n())
            &&& t.0.holds(*final(cs), w.resource)
            &&& t.1 < final(cs).n()
            &&& t.2 < final(cs).n()
            &&& final(cs).vb(t.1 as int) == resource_commit_of(w.resource)
            &&& final(cs).vb(t.2 as int) == w.leaf@
        },
        (old(cs).satisfied() && r.is_ok()) ==> final(cs).satisfied(),
{
    let ghost c0 = *cs;
    let vars = witness_resource(cs, &w.resource);
    let ghost c1 = *cs;
    proof {
        lemma_compose_in_range(w.resource.quantity, w.resource.is_merkle_checked);
    }
    let cm = match resource_commit(cs, vars) {
        Ok(c) => c,
        Err(e) => {
            proof {
                assert(false);
            }
            return Err(e);
        },
    };
    let ghost c2 = *cs;
    let leaf_var = cs.add_input(w.leaf.dup());
    let ghost c3 = *cs;
    let cm_eq = cs.assert_equal(cm, leaf_var);
    proof {
        lemma_extends_trans(c1, c2, c3);
        lemma_extends_trans(c1, c3, *cs);
        lemma_extends_trans(c0, c1, *cs);
        lemma_extends_preserves(c2, c3, cm as int);
        lemma_extends_preserves(c2, *cs, cm as int);
        lemma_extends_preserves(c3, *cs, leaf_var as int);
        lemma_extends_preserves(c1, *cs, vars.app_vp as int);
        lemma_extends_preserves(c1, *cs, vars.label as int);
        lemma_extends_preserves(c1, *cs, vars.value as int);
        lemma_extends_preserves(c1, *cs, vars.npk as int);
        lemma_extends_preserves(c1, *cs, vars.nonce as int);
        lemma_extends_preserves(c1, *cs, vars.psi as int);
        lemma_extends_preserves(c1, *cs, vars.quantity as int);
        lemma_extends_preserves(c1, *cs, vars.is_merkle_checked as int);
        lemma_extends_preserves(c1, *cs, vars.rcm as int);
        // the commitment variable carries the commitment of the fields
        assert(c2.vb(cm as int) == resource_commit_of(w.resource)) by {
            assert(vars.holds(c1, w.resource));
            assert(c1.v(vars.quantity as int) == w.resource.quantity as int);
            let vf = c1.v(vars.is_merkle_checked as int);
            assert(vf == if w.resource.is_merkle_checked { 1int } else { 0int });
            assert(vf * pow2(128) == if w.resource.is_merkle_checked {
                pow2(128) as int
            } else {
                0int
            });
            assert(c1.v(vars.quantity as int) + c1.v(vars.is_merkle_checked as int) * pow2(128)
                == compose_of(w.resource.quantity, w.resource.is_merkle_checked));
            assert(seq![
                c1.vb(vars.app_vp as int),
                c1.vb(vars.label as int),
                c1.vb(vars.value as int),
                c1.vb(vars.npk as int),
                c1.vb(vars.nonce as int),
                c1.vb(vars.psi as int),
                canon_bytes(c1.v(vars.quantity as int)
                    + c1.v(vars.is_merkle_checked as int) * pow2(128)),
                c1.vb(vars.rcm as int),
            ] =~= w.resource.commit_message());
        }
        assert(c3.vb(leaf_var as int) == w.leaf@);
    }
    if cm_eq.is_err() {
        return Err(TaigaError::ConstraintViolation);
    }
    Ok((vars, cm, leaf_var))
}

/// Constrain a recomputed root to equal the claimed one exactly when the
/// membership flag is set: the gated difference `(root - anchor) * flag` is
/// constrained to zero, so an unset flag bypasses the check without
/// affecting satisfiability.
#[verifier::rlimit(50)]
pub fn conditional_anchor_gadget(cs: &mut Composer, root: usize, anchor: usize, flag: usize)
    -> (r: Result<(), TaigaError>)
    requires
        old(cs).wf(),
        root < old(cs).n(),
        anchor < old(cs).n(),
        flag < old(cs).n(),
        old(cs).v(flag as int) == 0 || old(cs).v(flag as int) == 1,
    ensures
        final(cs).wf(),
        final(cs).extends(*old(cs)),
        final(cs).publics@ == old(cs).publics@,
        r.is_ok() <==> (old(cs).v(flag as int) == 1
            ==> old(cs).vb(root as int) == old(cs).vb(anchor as int)),
        r.is_err() ==> r == Err::<(), TaigaError>(TaigaError::ConstraintViolation),
        (old(cs).satisfied() && r.is_ok()) ==> final(cs).satisfied(),
{
    let ghost c0 = *cs;
    let diff = cs.sub_gate(root, anchor);
    let ghost c1 = *cs;
    let gated = cs.mul_gate(diff, flag);
    let ghost c2 = *cs;
    let zero_f = Felt::from_u64(0);
    let zero_var = cs.constant(&zero_f);
    let ghost c3 = *cs;
    let eq = cs.assert_equal(gated, zero_var);
    proof {
        lemma_extends_trans(c0, c1, c2);
        lemma_extends_trans(c0, c2, c3);
        lemma_extends_trans(c0, c3, *cs);
        lemma_extends_preserves(c0, c1, flag as int);
        lemma_extends_preserves(c1, c2, diff as int);
        lemma_extends_preserves(c2, c3, gated as int);
        let vflag = c0.v(flag as int);
        let vdiff = c1.v(diff as int);
        let vgated = c2.v(gated as int);
        assert(vdiff == (c0.v(root as int) - c0.v(anchor as int)) % p());
        lemma_mod_diff(c0.v(root as int), c0.v(anchor as int));
        assert(vgated == (vdiff * vflag) % p());
        lemma_le_int_nonneg(zero_f@);
        if vflag == 1 {
            assert(vdiff * 1 == vdiff) by (nonlinear_arith);
            lemma_mod_small(vdiff);
            assert(vgated == vdiff);
            if c0.v(root as int) == c0.v(anchor as int) {
                assert(vgated == 0);
                lemma_le_int_injective(c3.vb(gated as int), zero_f@);
                lemma_le_int_injective(c0.vb(root as int), c0.vb(anchor as int));
            } else {
                assert(vgated != 0);
                assert(c3.vb(gated as int) != zero_f@);
                if c0.vb(root as int) == c0.vb(anchor as int) {
                    assert(false);
                }
            }
        } else {
            assert(vdiff * 0 == 0) by (nonlinear_arith);
            lemma_mod_small(0);
            assert(vgated == 0);
            lemma_le_int_injective(c3.vb(gated as int), zero_f@);
        }
        assert(eq.is_ok() <==> (vflag == 1 ==> c0.vb(root as int) == c0.vb(anchor as int)));
    }
    if eq.is_err() {
        return Err(TaigaError::ConstraintViolation);
    }
    Ok(())
}

/// Enforce the integrity of one spent note: recompute the commitment and
/// constrain it equal to the supplied leaf, run the membership gadget with
/// the root constraint active exactly when the flag is set, derive the
/// nullifier, and expose the nullifier and root as public inputs.
#[verifier::rlimit(100)]
pub fn check_spend_note(cs: &mut Composer, w: &InputNoteWitness)
    -> (r: Result<SpendNoteVar, TaigaError>)
    requires
        old(cs).wf(),
        w.wf(),
    ensures
        final(cs).wf(),
        final(cs).extends(*old(cs)),
        r.is_ok() <==> w.integrity_ok(),
        r.is_err() ==> r == Err::<SpendNoteVar, TaigaError>(TaigaError::ConstraintViolation),
        r matches Ok(v) ==> {
            &&& v.resource.in_bounds(final(cs).n())
            &&& v.resource.holds(*final(cs), w.resource)
            &&& v.cm < final(cs).n()
            &&& v.nf < final(cs).n()
            &&& v.anchor < final(cs).n()
            &&& final(cs).vb(v.cm as int) == resource_commit_of(w.resource)
            &&& final(cs).vb(v.nf as int) == nullifier_of(w.resource)
            &&& final(cs).vb(v.anchor as int) == w.anchor@
            &&& final(cs).publics@.len() == old(cs).publics@.len() + 2
            &&& final(cs).public_values() =~= old(cs).public_values()
                + seq![nullifier_of(w.resource), w.anchor@]
        },
        (old(cs).satisfied() && r.is_ok()) ==> final(cs).satisfied(),
{
    let ghost c0 = *cs;
    let (vars, cm, leaf_var) = match spend_commitment_gadget(cs, w) {
        Ok(t) => t,
        Err(e) => {
            return Err(e);
        },
    };
    let ghost c1 = *cs;
    let root = merkle_poseidon_gadget(cs, leaf_var, &w.merkle_path);
    let ghost c2 = *cs;
    let anchor_var = cs.add_input(w.anchor.dup());
    let ghost c3 = *cs;
    proof {
        lemma_extends_trans(c1, c2, c3);
        lemma_extends_preserves(c1, c2, vars.is_merkle_checked as int);
        lemma_extends_preserves(c2, c3, vars.is_merkle_checked as int);
        lemma_extends_preserves(c2, c3, root as int);
        assert(c2.vb(root as int) == merkle_root_of(w.leaf@, path_view(w.merkle_path@)));
        assert(c3.vb(anchor_var as int) == w.anchor@);
    }
    let cond = conditional_anchor_gadget(cs, root, anchor_var, vars.is_merkle_checked);
    let ghost c4 = *cs;
    if cond.is_err() {
        proof {
            lemma_extends_trans(c0, c1, c3);
            lemma_extends_trans(c0, c3, c4);
            assert(!w.integrity_ok());
        }
        return Err(TaigaError::ConstraintViolation);
    }
    let nf = cs.hash2_gate(vars.npk, vars.nonce);
    let ghost c5 = *cs;
    cs.expose(nf);
    let ghost c6 = *cs;
    cs.expose(anchor_var);
    proof {
        lemma_extends_trans(c1, c3, c4);
        lemma_extends_trans(c1, c4, c5);
        lemma_extends_trans(c1, c5, c6);
        lemma_extends_trans(c1, c6, *cs);
        lemma_extends_trans(c0, c1, *cs);
        lemma_extends_preserves(c1, c4, vars.npk as int);
        lemma_extends_preserves(c1, c4, vars.nonce as int);
        lemma_extends_preserves(c5, *cs, nf as int);
        lemma_extends_preserves(c3, c4, anchor_var as int);
        lemma_extends_preserves(c3, *cs, anchor_var as int);
        lemma_extends_preserves(c1, *cs, cm as int);
        lemma_extends_preserves(c1, *cs, leaf_var as int);
        lemma_extends_preserves(c1, *cs, vars.app_vp as int);
        lemma_extends_preserves(c1, *cs, vars.label as int);
        lemma_extends_preserves(c1, *cs, vars.value as int);
        lemma_extends_preserves(c1, *cs, vars.npk as int);
        lemma_extends_preserves(c1, *cs, vars.nonce as int);
        lemma_extends_preserves(c1, *cs, vars.psi as int);
        lemma_extends_preserves(c1, *cs, vars.quantity as int);
        lemma_extends_preserves(c1, *cs, vars.is_merkle_checked as int);
        lemma_extends_preserves(c1, *cs, vars.rcm as int);
        // the nullifier variable carries the derived nullifier
        assert(cs.vb(nf as int) == nullifier_of(w.resource));
        // public layout: the two new positions carry the nullifier and root
        lemma_public_values_prefix(c0, *cs);
        assert(cs.publics@ == c0.publics@.push(nf).push(anchor_var));
        assert(cs.public_values() =~= c0.public_values()
            + seq![nullifier_of(w.resource), w.anchor@]);
    }
    Ok(SpendNoteVar { resource: vars, cm, nf, anchor: anchor_var })
}

/// Enforce the integrity of one created note: recompute its commitment from
/// its fields and expose it as a public input.
#[verifier::rlimit(100)]
pub fn check_output_note(cs: &mut Composer, r: &Resource) -> (out: Result<OutputNoteVar, TaigaError>)
    requires
        old(cs).wf(),
        r.wf(),
    ensures
        final(cs).wf(),
        final(cs).extends(*old(cs)),
        out.is_ok(),
        out matches Ok(v) ==> {
            &&& v.resource.in_bounds(final(cs).n())
            &&& v.resource.holds(*final(cs), *r)
            &&& v.cm < final(cs).n()
            &&& final(cs).vb(v.cm as int) == resource_commit_of(*r)
            &&& final(cs).publics@.len() == old(cs).publics@.len() + 1
            &&& final(cs).public_values() =~= old(cs).public_values()
                + seq![resource_commit_of(*r)]
        },
        old(cs).satisfied() ==> final(cs).satisfied(),
{
    let ghost c0 = *cs;
    let vars = witness_resource(cs, r);
    let ghost c1 = *cs;
    proof {
        lemma_compose_in_range(r.quantity, r.is_merkle_checked);
    }
    let cm = match resource_commit(cs, vars) {
        Ok(c) => c,
        Err(e) => {
            proof {
                assert(vars.holds(c1, *r));
                assert(c1.v(vars.is_merkle_checked as int) == 0
                    || c1.v(vars.is_merkle_checked as int) == 1);
                assert(c1.v(vars.quantity as int) < pow2(64));
                assert(false);
            }
            return Err(e);
        },
    };
    let ghost c2 = *cs;
    proof {
        assert(c2.vb(cm as int) == resource_commit_of(*r)) by {
            assert(vars.holds(c1, *r));
            assert(c1.v(vars.quantity as int) == r.quantity as int);
            let vf = c1.v(vars.is_merkle_checked as int);
            assert(vf == if r.is_merkle_checked { 1int } else { 0int });
            assert(vf * pow2(128) == if r.is_merkle_checked { pow2(128) as int } else { 0int });
            assert(c1.v(vars.quantity as int) + c1.v(vars.is_merkle_checked as int) * pow2(128)
                == compose_of(r.quantity, r.is_merkle_checked));
            assert(seq![
                c1.vb(vars.app_vp as int),
                c1.vb(vars.label as int),
                c1.vb(vars.value as int),
                c1.vb(vars.npk as int),
                c1.vb(vars.nonce as int),
                c1.vb(vars.psi as int),
                canon_bytes(c1.v(vars.quantity as int)
                    + c1.v(vars.is_merkle_checked as int) * pow2(128)),
                c1.vb(vars.rcm as int),
            ] =~= r.commit_message());
        }
    }
    cs.expose(cm);
    proof {
        lemma_extends_trans(c1, c2, *cs);
        lemma_extends_trans(c0, c1, *cs);
        lemma_extends_preserves(c2, *cs, cm as int);
        lemma_extends_preserves(c1, *cs, vars.app_vp as int);
        lemma_extends_preserves(c1, *cs, vars.label as int);
        lemma_extends_preserves(c1, *cs, vars.value as int);
        lemma_extends_preserves(c1, *cs, vars.npk as int);
        lemma_extends_preserves(c1, *cs, vars.nonce as int);
        lemma_extends_preserves(c1, *cs, vars.psi as int);
        lemma_extends_preserves(c1, *cs, vars.quantity as int);
        lemma_extends_preserves(c1, *cs, vars.is_merkle_checked as int);
        lemma_extends_preserves(c1, *cs, vars.rcm as int);
        lemma_public_values_prefix(c0, *cs);
        assert(cs.publics@ == c0.publics@.push(cm));
        assert(cs.public_values() =~= c0.public_values() + seq![resource_commit_of(*r)]);
    }
    Ok(OutputNoteVar { resource: vars, cm })
}

/// The mandatory constraints shared by every VP, in interleaved note order:
/// for each note index, the spent note's integrity is enforced and its
/// nullifier and root exposed, then the created note's commitment is
/// recomputed and exposed. The assembly fails with a constraint violation
/// exactly when some spent note breaks integrity.
#[verifier::rlimit(100)]
#[verifier::loop_isolation(false)]
pub fn basic_constraints(cs: &mut Composer, inputs: &Vec<InputNoteWitness>, outputs: &Vec<Resource>)
    -> (r: Result<(Vec<SpendNoteVar>, Vec<OutputNoteVar>), TaigaError>)
    requires
        old(cs).wf(),
        inputs@.len() == outputs@.len(),
        inputs_wf(inputs@),
        outputs_wf(outputs@),
    ensures
        final(cs).wf(),
        final(cs).extends(*old(cs)),
        r.is_ok() <==> inputs_integrity_ok(inputs@),
        r.is_err() ==> r == Err::<(Vec<SpendNoteVar>, Vec<OutputNoteVar>), TaigaError>(
            TaigaError::ConstraintViolation),
        r matches Ok(t) ==> {
            &&& t.0@.len() == inputs@.len()
            &&& t.1@.len() == outputs@.len()
            &&& forall|i: int| 0 <= i < inputs@.len() ==> {
                &&& (#[trigger] t.0@[i]).in_bounds(final(cs).n())
                &&& t.0@[i].resource.holds(*final(cs), inputs@[i].resource)
                &&& final(cs).vb(t.0@[i].cm as int) == resource_commit_of(inputs@[i].resource)
                &&& final(cs).vb(t.0@[i].nf as int) == nullifier_of(inputs@[i].resource)
                &&& final(cs).vb(t.0@[i].anchor as int) == inputs@[i].anchor@
            }
            &&& forall|i: int| 0 <= i < outputs@.len() ==> {
                &&& (#[trigger] t.1@[i]).in_bounds(final(cs).n())
                &&& t.1@[i].resource.holds(*final(cs), outputs@[i])
                &&& final(cs).vb(t.1@[i].cm as int) == resource_commit_of(outputs@[i])
            }
            &&& final(cs).public_values() =~= old(cs).public_values()
                + vp_public_spec(inputs@, outputs@)
        },
        (old(cs).satisfied() && r.is_ok()) ==> final(cs).satisfied(),
{
    let ghost c0 = *cs;
    let mut input_vars: Vec<SpendNoteVar> = Vec::new();
    let mut output_vars: Vec<OutputNoteVar> = Vec::new();
    let n_note = inputs.len();
    proof {
        assert(cs.public_values() =~= c0.public_values()
            + vp_public_spec(inputs@.subrange(0, 0), outputs@.subrange(0, 0)));
    }
    for i in 0..n_note
        invariant
            n_note == inputs@.len() == outputs@.len(),
            inputs_wf(inputs@),
            outputs_wf(outputs@),
            cs.wf(),
            cs.extends(c0),
            input_vars@.len() == i,
            output_vars@.len() == i,
            forall|j: int| 0 <= j < i ==> (#[trigger] inputs@[j]).integrity_ok(),
            forall|j: int| 0 <= j < i ==> {
                &&& (#[trigger] input_vars@[j]).in_bounds(cs.n())
                &&& input_vars@[j].resource.holds(*cs, inputs@[j].resource)
                &&& cs.vb(input_vars@[j].cm as int) == resource_commit_of(inputs@[j].resource)
                &&& cs.vb(input_vars@[j].nf as int) == nullifier_of(inputs@[j].resource)
                &&& cs.vb(input_vars@[j].anchor as int) == inputs@[j].anchor@
            },
            forall|j: int| 0 <= j < i ==> {
                &&& (#[trigger] output_vars@[j]).in_bounds(cs.n())
                &&& output_vars@[j].resource.holds(*cs, outputs@[j])
                &&& cs.vb(output_vars@[j].cm as int) == resource_commit_of(outputs@[j])
            },
            cs.public_values() =~= c0.public_values()
                + vp_public_spec(inputs@.subrange(0, i as int), outputs@.subrange(0, i as int)),
            c0.satisfied() ==> cs.satisfied(),
    {
        let ghost prev = *cs;
        let res_i = check_spend_note(cs, &inputs[i]);
        proof {
            lemma_extends_trans(c0, prev, *cs);
        }
        if res_i.is_err() {
            proof {
                assert(!inputs@[i as int].integrity_ok());
            }
            return Err(TaigaError::ConstraintViolation);
        }
        let v = match res_i {
            Ok(v) => v,
            Err(_) => {
                proof {
                    assert(false);
                }
                return Err(TaigaError::ConstraintViolation);
            },
        };
        let ghost mid = *cs;
        let w = match check_output_note(cs, &outputs[i]) {
            Ok(w) => w,
            Err(_) => {
                proof {
                    assert(false);
                }
                return Err(TaigaError::ConstraintViolation);
            },
        };
        input_vars.push(v);
        output_vars.push(w);
        proof {
            lemma_extends_trans(prev, mid, *cs);
            lemma_extends_trans(c0, prev, *cs);
            lemma_public_values_prefix(prev, mid);
            lemma_public_values_prefix(mid, *cs);
            assert forall|j: int| 0 <= j < i + 1 implies {
                &&& (#[trigger] input_vars@[j]).in_bounds(cs.n())
                &&& input_vars@[j].resource.holds(*cs, inputs@[j].resource)
                &&& cs.vb(input_vars@[j].cm as int) == resource_commit_of(inputs@[j].resource)
                &&& cs.vb(input_vars@[j].nf as int) == nullifier_of(inputs@[j].resource)
                &&& cs.vb(input_vars@[j].anchor as int) == inputs@[j].anchor@
            } by {
                if j < i {
                    lemma_holds_preserved(prev, *cs, input_vars@[j].resource,
                        inputs@[j].resource);
                    lemma_extends_preserves(prev, *cs, input_vars@[j].cm as int);
                    lemma_extends_preserves(prev, *cs, input_vars@[j].nf as int);
                    lemma_extends_preserves(prev, *cs, input_vars@[j].anchor as int);
                } else {
                    lemma_holds_preserved(mid, *cs, v.resource, inputs@[i as int].resource);
                    lemma_extends_preserves(mid, *cs, v.cm as int);
                    lemma_extends_preserves(mid, *cs, v.nf as int);
                    lemma_extends_preserves(mid, *cs, v.anchor as int);
                }
            }
            assert forall|j: int| 0 <= j < i + 1 implies {
                &&& (#[trigger] output_vars@[j]).in_bounds(cs.n())
                &&& output_vars@[j].resource.holds(*cs, outputs@[j])
                &&& cs.vb(output_vars@[j].cm as int) == resource_commit_of(outputs@[j])
            } by {
                if j < i {
                    lemma_holds_preserved(prev, *cs, output_vars@[j].resource, outputs@[j]);
                    lemma_extends_preserves(prev, *cs, output_vars@[j].cm as int);
                }
            }
            // the three values this note exposed extend the interleaved layout
            assert(cs.public_values() =~= c0.public_values()
                + vp_public_spec(inputs@.subrange(0, i + 1), outputs@.subrange(0, i + 1))) by {
                assert(prev.public_values() =~= c0.public_values()
                    + vp_public_spec(inputs@.subrange(0, i as int),
                        outputs@.subrange(0, i as int)));
                assert(mid.public_values() =~= prev.public_values()
                    + seq![nullifier_of(inputs@[i as int].resource), inputs@[i as int].anchor@]);
                assert(cs.public_values() =~= mid.public_values()
                    + seq![resource_commit_of(outputs@[i as int])]);
                assert(vp_public_spec(inputs@.subrange(0, i + 1), outputs@.subrange(0, i + 1))
                    =~= vp_public_spec(inputs@.subrange(0, i as int),
                        outputs@.subrange(0, i as int))
                    + seq![nullifier_of(inputs@[i as int].resource), inputs@[i as int].anchor@,
                        resource_commit_of(outputs@[i as int])]);
            }
        }
    }
    proof {
        assert(inputs@.subrange(0, inputs@.len() as int) =~= inputs@);
        assert(outputs@.subrange(0, outputs@.len() as int) =~= outputs@);
    }
    Ok((input_vars, output_vars))
}

/// A validity-predicate circuit: a fixed set of input and output notes and a
/// pluggable application constraint set, composed after the mandatory
/// note-integrity constraints.
pub trait ValidityPredicateCircuit: Sized {
    /// The spent notes the predicate is instantiated with.
    spec fn input_notes_spec(&self) -> Seq<InputNoteWitness>;

    /// The created notes the predicate is instantiated with.
    spec fn output_notes_spec(&self) -> Seq<Resource>;

    /// Well-formedness of the predicate's own data, beyond the notes.
    spec fn vp_wf(&self) -> bool;

    fn get_input_notes(&self) -> (r: &Vec<InputNoteWitness>)
        ensures
            r@ == self.input_notes_spec(),
    ;

    fn get_output_notes(&self) -> (r: &Vec<Resource>)
        ensures
            r@ == self.output_notes_spec(),
    ;

    /// Application-specific constraints over the note variables that the
    /// basic constraints produced and validated.
    fn custom_constraints(&self, cs: &mut Composer, input_note_variables: &Vec<SpendNoteVar>,
        output_note_variables: &Vec<OutputNoteVar>) -> (r: Result<(), TaigaError>)
        requires
            old(cs).wf(),
            self.vp_wf(),
            forall|i: int| 0 <= i < input_note_variables@.len()
                ==> (#[trigger] input_note_variables@[i]).in_bounds(old(cs).n()),
            forall|i: int| 0 <= i < output_note_variables@.len()
                ==> (#[trigger] output_note_variables@[i]).in_bounds(old(cs).n()),
        ensures
            final(cs).wf(),
            final(cs).extends(*old(cs)),
            r.is_err() ==> r == Err::<(), TaigaError>(TaigaError::ConstraintViolation),
            (old(cs).satisfied() && r.is_ok()) ==> final(cs).satisfied(),
    ;
}

/// Assemble a whole VP circuit: the basic constraints, then the predicate's
/// custom constraints over the validated note variables.
pub fn gadget_vp<V: ValidityPredicateCircuit>(vp: &V, cs: &mut Composer)
    -> (r: Result<(Vec<SpendNoteVar>, Vec<OutputNoteVar>), TaigaError>)
    requires
        old(cs).wf(),
        vp.vp_wf(),
        vp.input_notes_spec().len() == vp.output_notes_spec().len(),
        inputs_wf(vp.input_notes_spec()),
        outputs_wf(vp.output_notes_spec()),
    ensures
        final(cs).wf(),
        final(cs).extends(*old(cs)),
        r.is_ok() ==> inputs_integrity_ok(vp.input_notes_spec()),
        !inputs_integrity_ok(vp.input_notes_spec()) ==> r.is_err(),
        r.is_err() ==> r == Err::<(Vec<SpendNoteVar>, Vec<OutputNoteVar>), TaigaError>(
            TaigaError::ConstraintViolation),
        (old(cs).satisfied() && r.is_ok()) ==> final(cs).satisfied(),
{
    let ghost c0 = *cs;
    let note_vars = {
        let ins = vp.get_input_notes();
        let outs = vp.get_output_notes();
        basic_constraints(cs, ins, outs)
    };
    let (input_vars, output_vars) = match note_vars {
        Ok(t) => t,
        Err(e) => {
            return Err(e);
        },
    };
    let ghost c1 = *cs;
    match vp.custom_constraints(cs, &input_vars, &output_vars) {
        Ok(()) => {},
        Err(e) => {
            proof {
                lemma_extends_trans(c0, c1, *cs);
            }
            return Err(e);
        },
    }
    proof {
        lemma_extends_trans(c0, c1, *cs);
    }
    Ok((input_vars, output_vars))
}

} // verus!
