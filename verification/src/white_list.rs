//! The whitelist validity predicate: the first spent note's owner identity
//! must be a member of a fixed whitelist Merkle tree.

use vstd::prelude::*;
use crate::felt::{Felt, lemma_le_int_injective};
use crate::composer::{Composer, lemma_extends_preserves, lemma_extends_trans,
    lemma_public_values_prefix};
use crate::merkle_circuit::{path_view, path_wf, merkle_root_of, merkle_poseidon_gadget};
use crate::vp_circuit::{InputNoteWitness, SpendNoteVar, OutputNoteVar, ValidityPredicateCircuit,
    inputs_wf, outputs_wf, inputs_integrity_ok, basic_constraints, vp_public_spec};
use crate::resource_commitment::Resource;
use crate::error::TaigaError;

verus! {

/// Membership gadget for whitelist checks: folds the owner variable through
/// the whitelist path and returns the variable carrying the reached root.
pub fn white_list_gadget(composer: &mut Composer, owner_variable: usize,
    merkle_path: &Vec<(Felt, bool)>) -> (root: usize)
    requires
        old(composer).wf(),
        owner_variable < old(composer).n(),
        path_wf(merkle_path@),
    ensures
        final(composer).wf(),
        final(composer).extends(*old(composer)),
        final(composer).publics@ == old(composer).publics@,
        root < final(composer).n(),
        final(composer).vb(root as int)
            == merkle_root_of(old(composer).vb(owner_variable as int), path_view(merkle_path@)),
        old(composer).satisfied() ==> final(composer).satisfied(),
{
    merkle_poseidon_gadget(composer, owner_variable, merkle_path)
}

/// A validity predicate whose custom constraint requires the first spent
/// note's owner key to be a member of the whitelist tree with the given
/// root, along the given path.
pub struct WhiteListValidityPredicate {
    pub input_notes: Vec<InputNoteWitness>,
    pub output_notes: Vec<Resource>,
    pub white_list_path: Vec<(Felt, bool)>,
    pub white_list_root: Felt,
}

impl WhiteListValidityPredicate {
    pub open spec fn wf(&self) -> bool {
        path_wf(self.white_list_path@) && self.white_list_root.wf()
            && self.input_notes@.len() > 0
    }

    /// The membership condition the custom constraint enforces.
    pub open spec fn membership_ok(&self) -> bool {
        merkle_root_of(self.input_notes@[0].resource.npk@, path_view(self.white_list_path@))
            == self.white_list_root@
    }

    /// The whitelist constraint: fold the owner variable to a root and
    /// constrain it equal to the pinned whitelist root. Assembly fails with
    /// a constraint violation exactly when the owner is not a member.
    pub fn membership_constraints(&self, cs: &mut Composer, owner_variable: usize,
        Ghost(owner): Ghost<Seq<u8>>) -> (r: Result<(), TaigaError>)
        requires
            old(cs).wf(),
            self.wf(),
            owner_variable < old(cs).n(),
            old(cs).vb(owner_variable as int) == owner,
        ensures
            final(cs).wf(),
            final(cs).extends(*old(cs)),
            final(cs).publics@ == old(cs).publics@,
            r.is_ok() <==> merkle_root_of(owner, path_view(self.white_list_path@))
                == self.white_list_root@,
            r.is_err() ==> r == Err::<(), TaigaError>(TaigaError::ConstraintViolation),
            (old(cs).satisfied() && r.is_ok()) ==> final(cs).satisfied(),
    {
        let ghost c0 = *cs;
        let root = white_list_gadget(cs, owner_variable, &self.white_list_path);
        let ghost c1 = *cs;
        let expected = cs.constant(&self.white_list_root);
        let ghost c2 = *cs;
        let eq = cs.assert_equal(expected, root);
        proof {
            lemma_extends_trans(c0, c1, c2);
            lemma_extends_trans(c0, c2, *cs);
            lemma_extends_preserves(c1, c2, root as int);
            assert(c2.vb(root as int)
                == merkle_root_of(owner, path_view(self.white_list_path@)));
            assert(c2.vb(expected as int) == self.white_list_root@);
        }
        if eq.is_err() {
            return Err(TaigaError::ConstraintViolation);
        }
        Ok(())
    }

    /// Assemble the whole whitelist VP circuit: note integrity first, then
    /// the membership constraint on the first spent note's owner key.
    pub fn gadget(&self, cs: &mut Composer)
        -> (r: Result<(Vec<SpendNoteVar>, Vec<OutputNoteVar>), TaigaError>)
        requires
            old(cs).wf(),
            self.wf(),
            self.input_notes@.len() == self.output_notes@.len(),
            inputs_wf(self.input_notes@),
            outputs_wf(self.output_notes@),
        ensures
            final(cs).wf(),
            final(cs).extends(*old(cs)),
            r.is_ok() <==> (inputs_integrity_ok(self.input_notes@) && self.membership_ok()),
            r.is_err() ==> r == Err::<(Vec<SpendNoteVar>, Vec<OutputNoteVar>), TaigaError>(
                TaigaError::ConstraintViolation),
            r.is_ok() ==> final(cs).public_values() =~= old(cs).public_values()
                + vp_public_spec(self.input_notes@, self.output_notes@),
            (old(cs).satisfied() && r.is_ok()) ==> final(cs).satisfied(),
    {
        let ghost c0 = *cs;
        let note_vars = basic_constraints(cs, &self.input_notes, &self.output_notes);
        let (input_vars, output_vars) = match note_vars {
            Ok(t) => t,
            Err(e) => {
                return Err(e);
            },
        };
        let ghost c1 = *cs;
        let owner_variable = input_vars[0].resource.npk;
        proof {
            assert(input_vars@[0].resource.holds(*cs, self.input_notes@[0].resource));
        }
        let mem = self.membership_constraints(cs, owner_variable,
            Ghost(self.input_notes@[0].resource.npk@));
        proof {
            lemma_extends_trans(c0, c1, *cs);
            // the custom constraint exposes nothing, so the layout stands
            lemma_public_values_prefix(c1, *cs);
            assert(cs.public_values() =~= c1.public_values());
        }
        match mem {
            Ok(()) => Ok((input_vars, output_vars)),
            Err(e) => Err(e),
        }
    }
}

impl ValidityPredicateCircuit for WhiteListValidityPredicate {
    open spec fn input_notes_spec(&self) -> Seq<InputNoteWitness> {
        self.input_notes@
    }

    open spec fn output_notes_spec(&self) -> Seq<Resource> {
        self.output_notes@
    }

    fn get_input_notes(&self) -> (r: &Vec<InputNoteWitness>) {
        &self.input_notes
    }

    fn get_output_notes(&self) -> (r: &Vec<Resource>) {
        &self.output_notes
    }

    open spec fn vp_wf(&self) -> bool {
        self.wf()
    }

    fn custom_constraints(&self, cs: &mut Composer, input_note_variables: &Vec<SpendNoteVar>,
        output_note_variables: &Vec<OutputNoteVar>) -> (r: Result<(), TaigaError>)
    {
        if input_note_variables.len() == 0 {
            return Err(TaigaError::ConstraintViolation);
        }
        let owner_variable = input_note_variables[0].resource.npk;
        self.membership_constraints(cs, owner_variable,
            Ghost(old(cs).vb(owner_variable as int)))
    }
}

} // verus!
