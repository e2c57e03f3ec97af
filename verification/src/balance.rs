//! The balance validity predicate: the field-sum of the input quantities
//! must equal the field-sum of the output quantities.

use vstd::prelude::*;
use vstd::arithmetic::power2::pow2;
use crate::felt::{Felt, p, lemma_mod_small, lemma_pow2_below_p, lemma_le_int_injective};
use crate::composer::{Composer, lemma_extends_preserves, lemma_extends_trans,
    lemma_public_values_prefix};
use crate::vp_circuit::{InputNoteWitness, SpendNoteVar, OutputNoteVar, ValidityPredicateCircuit,
    inputs_wf, outputs_wf, inputs_integrity_ok, basic_constraints, vp_public_spec};
use crate::resource_commitment::Resource;
use crate::error::TaigaError;

verus! {

/// The left fold of a quantity sequence under field addition.
pub open spec fn sum_mod(qs: Seq<int>) -> int
    decreases qs.len(),
{
    if qs.len() == 0 {
        0
    } else {
        (sum_mod(qs.drop_last()) + qs.last()) % p()
    }
}

/// For a transition of two spent and two created notes with 64-bit
/// quantities, the field-sums never wrap, so the balance constraint holds
/// exactly when the plain integer sums agree.
pub proof fn lemma_balance_exact_for_small_sums(in_qs: Seq<int>, out_qs: Seq<int>)
    requires
        in_qs.len() == 2,
        out_qs.len() == 2,
        forall|i: int| 0 <= i < 2 ==> 0 <= #[trigger] in_qs[i] < pow2(64),
        forall|i: int| 0 <= i < 2 ==> 0 <= #[trigger] out_qs[i] < pow2(64),
    ensures
        (sum_mod(in_qs) == sum_mod(out_qs)) <==> (in_qs[0] + in_qs[1] == out_qs[0] + out_qs[1]),
{
    lemma_sum_mod_pair(in_qs);
    lemma_sum_mod_pair(out_qs);
}

/// The field-sum of a pair of 64-bit quantities is their integer sum.
proof fn lemma_sum_mod_pair(qs: Seq<int>)
    requires
        qs.len() == 2,
        forall|i: int| 0 <= i < 2 ==> 0 <= #[trigger] qs[i] < pow2(64),
    ensures
        sum_mod(qs) == qs[0] + qs[1],
{
    lemma_pow2_below_p(65);
    vstd::arithmetic::power2::lemma_pow2_adds(64, 1);
    vstd::arithmetic::power2::lemma2_to64();
    assert(qs.drop_last().drop_last() =~= Seq::<int>::empty());
    assert(qs.drop_last().last() == qs[0]);
    assert(qs.last() == qs[1]);
    assert(sum_mod(Seq::<int>::empty()) == 0);
    assert(qs.drop_last().len() == 1);
    assert(sum_mod(qs.drop_last()) == (0 + qs[0]) % p());
    lemma_mod_small(qs[0]);
    assert(qs[0] + qs[1] < pow2(65)) by {
        assert(pow2(65) == 2 * pow2(64));
    }
    lemma_mod_small(qs[0] + qs[1]);
    assert(sum_mod(qs) == (qs[0] + qs[1]) % p());
}

/// The quantities of a spent-note sequence.
pub open spec fn input_quantities(inputs: Seq<InputNoteWitness>) -> Seq<int> {
    inputs.map_values(|w: InputNoteWitness| w.resource.quantity as int)
}

/// The quantities of a created-note sequence.
pub open spec fn output_quantities(outputs: Seq<Resource>) -> Seq<int> {
    outputs.map_values(|r: Resource| r.quantity as int)
}

/// A validity predicate whose custom constraint conserves value: the sum of
/// the input note quantities equals the sum of the output note quantities.
pub struct BalanceValidityPredicate {
    pub input_notes: Vec<InputNoteWitness>,
    pub output_notes: Vec<Resource>,
}

/// Emit a chain of addition gates summing the quantity variables of the
/// given notes from a pinned zero, returning the accumulator variable.
#[verifier::loop_isolation(false)]
fn sum_quantities_gadget(cs: &mut Composer, qvars: &Vec<usize>, Ghost(qs): Ghost<Seq<int>>)
    -> (acc: usize)
    requires
        old(cs).wf(),
        forall|i: int| 0 <= i < qvars@.len() ==> (#[trigger] qvars@[i]) < old(cs).n(),
        qs.len() == qvars@.len(),
        forall|i: int| 0 <= i < qvars@.len() ==> old(cs).v(#[trigger] qvars@[i] as int) == qs[i],
    ensures
        final(cs).wf(),
        final(cs).extends(*old(cs)),
        final(cs).publics@ == old(cs).publics@,
        acc < final(cs).n(),
        final(cs).v(acc as int) == sum_mod(qs),
        old(cs).satisfied() ==> final(cs).satisfied(),
{
    let ghost c0 = *cs;
    let zero = Felt::from_u64(0);
    let mut acc = cs.constant(&zero);
    proof {
        assert(qs.subrange(0, 0) =~= Seq::<int>::empty());
    }
    let n = qvars.len();
    for i in 0..n
        invariant
            cs.wf(),
            cs.extends(c0),
            cs.publics@ == c0.publics@,
            acc < cs.n(),
            cs.v(acc as int) == sum_mod(qs.subrange(0, i as int)),
            forall|j: int| 0 <= j < qvars@.len()
                ==> cs.v(#[trigger] qvars@[j] as int) == qs[j],
            c0.satisfied() ==> cs.satisfied(),
    {
        let ghost prev = *cs;
        let next = cs.add_gate(acc, qvars[i]);
        proof {
            lemma_extends_trans(c0, prev, *cs);
            assert forall|j: int| 0 <= j < qvars@.len()
                implies cs.v(#[trigger] qvars@[j] as int) == qs[j] by {
                lemma_extends_preserves(prev, *cs, qvars@[j] as int);
            }
            assert(qs.subrange(0, i + 1).drop_last() =~= qs.subrange(0, i as int));
            assert(qs.subrange(0, i + 1).last() == qs[i as int]);
        }
        acc = next;
    }
    proof {
        assert(qs.subrange(0, qs.len() as int) =~= qs);
    }
    acc
}

impl BalanceValidityPredicate {
    /// The balance constraint: sum the input and the output quantity
    /// variables and constrain the two accumulators equal. Assembly fails
    /// with a constraint violation exactly when the field-sums differ.
    #[verifier::loop_isolation(false)]
    pub fn balance_constraints(&self, cs: &mut Composer,
        input_note_variables: &Vec<SpendNoteVar>, output_note_variables: &Vec<OutputNoteVar>,
        Ghost(in_qs): Ghost<Seq<int>>, Ghost(out_qs): Ghost<Seq<int>>)
        -> (r: Result<(), TaigaError>)
        requires
            old(cs).wf(),
            in_qs.len() == input_note_variables@.len(),
            out_qs.len() == output_note_variables@.len(),
            forall|i: int| 0 <= i < input_note_variables@.len()
                ==> (#[trigger] input_note_variables@[i]).in_bounds(old(cs).n()),
            forall|i: int| 0 <= i < output_note_variables@.len()
                ==> (#[trigger] output_note_variables@[i]).in_bounds(old(cs).n()),
            forall|i: int| 0 <= i < input_note_variables@.len()
                ==> old(cs).v((#[trigger] input_note_variables@[i]).resource.quantity as int)
                    == in_qs[i],
            forall|i: int| 0 <= i < output_note_variables@.len()
                ==> old(cs).v((#[trigger] output_note_variables@[i]).resource.quantity as int)
                    == out_qs[i],
        ensures
            final(cs).wf(),
            final(cs).extends(*old(cs)),
            final(cs).publics@ == old(cs).publics@,
            r.is_ok() <==> sum_mod(in_qs) == sum_mod(out_qs),
            r.is_err() ==> r == Err::<(), TaigaError>(TaigaError::ConstraintViolation),
            (old(cs).satisfied() && r.is_ok()) ==> final(cs).satisfied(),
    {
        let ghost c0 = *cs;
        let mut in_vars: Vec<usize> = Vec::new();
        let n_in = input_note_variables.len();
        for i in 0..n_in
            invariant
                in_vars@.len() == i,
                forall|j: int| 0 <= j < i
                    ==> (#[trigger] in_vars@[j]) == input_note_variables@[j].resource.quantity,
        {
            in_vars.push(input_note_variables[i].resource.quantity);
        }
        let mut out_vars: Vec<usize> = Vec::new();
        let n_out = output_note_variables.len();
        for i in 0..n_out
            invariant
                out_vars@.len() == i,
                forall|j: int| 0 <= j < i
                    ==> (#[trigger] out_vars@[j]) == output_note_variables@[j].resource.quantity,
        {
            out_vars.push(output_note_variables[i].resource.quantity);
        }
        let acc_in = sum_quantities_gadget(cs, &in_vars, Ghost(in_qs));
        let ghost c1 = *cs;
        proof {
            assert forall|j: int| 0 <= j < out_vars@.len()
                implies cs.v(#[trigger] out_vars@[j] as int) == out_qs[j] by {
                lemma_extends_preserves(c0, c1, out_vars@[j] as int);
            }
        }
        let acc_out = sum_quantities_gadget(cs, &out_vars, Ghost(out_qs));
        let ghost c2 = *cs;
        let eq = cs.assert_equal(acc_in, acc_out);
        proof {
            lemma_extends_trans(c0, c1, c2);
            lemma_extends_trans(c0, c2, *cs);
            lemma_extends_preserves(c1, c2, acc_in as int);
            lemma_extends_preserves(c2, *cs, acc_in as int);
            lemma_extends_preserves(c2, *cs, acc_out as int);
            let fa = c2.values@[acc_in as int];
            let fb = c2.values@[acc_out as int];
            if c2.v(acc_in as int) == c2.v(acc_out as int) {
                lemma_le_int_injective(fa@, fb@);
            }
            assert(eq.is_ok() <==> sum_mod(in_qs) == sum_mod(out_qs));
        }
        if eq.is_err() {
            return Err(TaigaError::ConstraintViolation);
        }
        Ok(())
    }
}

impl ValidityPredicateCircuit for BalanceValidityPredicate {
    open spec fn input_notes_spec(&self) -> Seq<InputNoteWitness> {
        self.input_notes@
    }

    open spec fn output_notes_spec(&self) -> Seq<Resource> {
        self.output_notes@
    }

    open spec fn vp_wf(&self) -> bool {
        true
    }

    fn get_input_notes(&self) -> (r: &Vec<InputNoteWitness>) {
        &self.input_notes
    }

    fn get_output_notes(&self) -> (r: &Vec<Resource>) {
        &self.output_notes
    }

    fn custom_constraints(&self, cs: &mut Composer, input_note_variables: &Vec<SpendNoteVar>,
        output_note_variables: &Vec<OutputNoteVar>) -> (r: Result<(), TaigaError>)
    {
        let ghost in_qs = Seq::new(input_note_variables@.len(),
            |i: int| old(cs).v(input_note_variables@[i].resource.quantity as int));
        let ghost out_qs = Seq::new(output_note_variables@.len(),
            |i: int| old(cs).v(output_note_variables@[i].resource.quantity as int));
        self.balance_constraints(cs, input_note_variables, output_note_variables,
            Ghost(in_qs), Ghost(out_qs))
    }
}

impl BalanceValidityPredicate {
    /// Assemble the whole balance VP circuit: note integrity first, then the
    /// conservation constraint. The assembly succeeds exactly when every
    /// spent note is intact and the quantity sums agree.
    pub fn gadget(&self, cs: &mut Composer)
        -> (r: Result<(Vec<SpendNoteVar>, Vec<OutputNoteVar>), TaigaError>)
        requires
            old(cs).wf(),
            self.input_notes@.len() == self.output_notes@.len(),
            inputs_wf(self.input_notes@),
            outputs_wf(self.output_notes@),
        ensures
            final(cs).wf(),
            final(cs).extends(*old(cs)),
            r.is_ok() <==> (inputs_integrity_ok(self.input_notes@)
                && sum_mod(input_quantities(self.input_notes@))
                    == sum_mod(output_quantities(self.output_notes@))),
            r.is_err() ==> r == Err::<(Vec<SpendNoteVar>, Vec<OutputNoteVar>), TaigaError>(
                TaigaError::ConstraintViolation),
            r.is_ok() ==> final(cs).public_values() =~= old(cs).public_values()
                + vp_public_spec(self.input_notes@, self.output_notes@),
            (old(cs).satisfied() && r.is_ok()) ==> final(cs).satisfied(),
    {
        let ghost c0 = *cs;
        let note_vars = basic_constraints(cs, &self.input_notes, &self.output_notes);
        let (input_vars, output_vars) = match note_vars {
            Ok(t) => t,
            Err(e) => {
                return Err(e);
            },
        };
        let ghost c1 = *cs;
        let ghost in_qs = input_quantities(self.input_notes@);
        let ghost out_qs = output_quantities(self.output_notes@);
        proof {
            assert forall|i: int| 0 <= i < input_vars@.len()
                implies cs.v((#[trigger] input_vars@[i]).resource.quantity as int)
                    == in_qs[i] by {
                assert(input_vars@[i].resource.holds(*cs, self.input_notes@[i].resource));
            }
            assert forall|i: int| 0 <= i < output_vars@.len()
                implies cs.v((#[trigger] output_vars@[i]).resource.quantity as int)
                    == out_qs[i] by {
                assert(output_vars@[i].resource.holds(*cs, self.output_notes@[i]));
            }
        }
        let bal = self.balance_constraints(cs, &input_vars, &output_vars,
            Ghost(in_qs), Ghost(out_qs));
        proof {
            lemma_extends_trans(c0, c1, *cs);
            // the custom constraint exposes nothing, so the layout stands
            lemma_public_values_prefix(c1, *cs);
            assert(cs.public_values() =~= c1.public_values());
        }
        match bal {
            Ok(()) => Ok((input_vars, output_vars)),
            Err(e) => Err(e),
        }
    }

    /// The padded circuit-size bound this predicate is compiled with.
    pub fn padded_circuit_size(&self) -> (r: usize)
        ensures
            r == 131072,
    {
        131072
    }
}

} // verus!
