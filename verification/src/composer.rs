//! A small standard composer: gadgets allocate witness variables and add
//! constraint gates, and the witness assignment always satisfies the added
//! gates. A circuit's gate list is its structure; the value list is its
//! witness assignment.

use vstd::prelude::*;
use vstd::arithmetic::power2::{pow2, lemma2_to64, lemma2_to64_rest, lemma_pow2_strictly_increases};
use crate::felt::{
    Felt, le_int, p, lemma_le_int_app, lemma_le_int_bound, lemma_le_int_nonneg,
    lemma_le_int_zero, lemma_le_int_lower, lemma_le_int_injective, fp_add, fp_sub, fp_mul,
};
use crate::hash::{poseidon2_of, poseidon8_of, poseidon_hash2, poseidon_hash8};
use crate::error::TaigaError;

verus! {

/// One constraint over witness variables, named by index.
pub enum Gate {
    /// `v[c] == v[a] + v[b]` in the field.
    Add { a: usize, b: usize, c: usize },
    /// `v[c] == v[a] - v[b]` in the field.
    Sub { a: usize, b: usize, c: usize },
    /// `v[c] == v[a] * v[b]` in the field.
    Mul { a: usize, b: usize, c: usize },
    /// `v[c] == k * v[a]` in the field, for a fixed coefficient.
    MulConst { k: Felt, a: usize, c: usize },
    /// `v[a]` equals a fixed constant.
    ConstEq { k: Felt, a: usize },
    /// `v[a] == v[b]`.
    AssertEq { a: usize, b: usize },
    /// `v[a]` is 0 or 1.
    BoolCheck { a: usize },
    /// `v[a]` fits in 64 bits.
    Range64 { a: usize },
    /// `v[c]` is the arity-2 hash of `v[a]` and `v[b]`.
    Hash2 { a: usize, b: usize, c: usize },
    /// `v[c]` is the eight-element hash of the listed variables.
    Hash8 { m: Vec<usize>, c: usize },
}

impl Gate {
    /// Each named variable index stays below `n`, and any constants carried
    /// are canonical.
    pub open spec fn in_bounds(self, n: int) -> bool {
        match self {
            Gate::Add { a, b, c } => a < n && b < n && c < n,
            Gate::Sub { a, b, c } => a < n && b < n && c < n,
            Gate::Mul { a, b, c } => a < n && b < n && c < n,
            Gate::MulConst { k, a, c } => k.wf() && a < n && c < n,
            Gate::ConstEq { k, a } => k.wf() && a < n,
            Gate::AssertEq { a, b } => a < n && b < n,
            Gate::BoolCheck { a } => a < n,
            Gate::Range64 { a } => a < n,
            Gate::Hash2 { a, b, c } => a < n && b < n && c < n,
            Gate::Hash8 { m, c } => m@.len() == 8
                && (forall|i: int| 0 <= i < 8 ==> m@[i] < n) && c < n,
        }
    }
}

/// The residue variable `i` holds under an assignment.
pub open spec fn val_of(vals: Seq<Felt>, i: int) -> int {
    vals[i].as_int()
}

/// The canonical bytes variable `i` holds under an assignment.
pub open spec fn bytes_of(vals: Seq<Felt>, i: int) -> Seq<u8> {
    vals[i]@
}

/// Whether an assignment meets one gate.
pub open spec fn gate_ok_in(vals: Seq<Felt>, g: Gate) -> bool {
    match g {
        Gate::Add { a, b, c } => val_of(vals, c as int)
            == (val_of(vals, a as int) + val_of(vals, b as int)) % p(),
        Gate::Sub { a, b, c } => val_of(vals, c as int)
            == (val_of(vals, a as int) - val_of(vals, b as int)) % p(),
        Gate::Mul { a, b, c } => val_of(vals, c as int)
            == (val_of(vals, a as int) * val_of(vals, b as int)) % p(),
        Gate::MulConst { k, a, c } => val_of(vals, c as int)
            == (k.as_int() * val_of(vals, a as int)) % p(),
        Gate::ConstEq { k, a } => bytes_of(vals, a as int) == k@,
        Gate::AssertEq { a, b } => bytes_of(vals, a as int) == bytes_of(vals, b as int),
        Gate::BoolCheck { a } => val_of(vals, a as int) == 0 || val_of(vals, a as int) == 1,
        Gate::Range64 { a } => val_of(vals, a as int) < pow2(64),
        Gate::Hash2 { a, b, c } => bytes_of(vals, c as int)
            == poseidon2_of(bytes_of(vals, a as int), bytes_of(vals, b as int)),
        Gate::Hash8 { m, c } => bytes_of(vals, c as int)
            == poseidon8_of(Seq::new(8, |i: int| bytes_of(vals, m@[i] as int))),
    }
}

/// A gate only reads variables below its bound, so extending the assignment
/// does not change whether it holds.
pub proof fn lemma_gate_ok_mono(vals: Seq<Felt>, ext: Seq<Felt>, g: Gate)
    requires
        vals.is_prefix_of(ext),
        g.in_bounds(vals.len() as int),
    ensures
        gate_ok_in(vals, g) == gate_ok_in(ext, g),
{
    assert(forall|i: int| 0 <= i < vals.len() ==> ext[i] == vals[i]);
    match g {
        Gate::Hash8 { m, c } => {
            assert(Seq::new(8, |i: int| bytes_of(vals, m@[i] as int))
                =~= Seq::new(8, |i: int| bytes_of(ext, m@[i] as int)));
        },
        _ => {},
    }
}

/// Extension keeps every variable the earlier state had.
pub proof fn lemma_extends_preserves(prev: Composer, next: Composer, i: int)
    requires
        next.extends(prev),
        0 <= i < prev.n(),
    ensures
        next.values@[i] == prev.values@[i],
        next.vb(i) == prev.vb(i),
        next.v(i) == prev.v(i),
{
    assert(prev.values@ == next.values@.subrange(0, prev.n()));
}

/// Extension of composer states is transitive.
pub proof fn lemma_extends_trans(a: Composer, b: Composer, c: Composer)
    requires
        b.extends(a),
        c.extends(b),
    ensures
        c.extends(a),
{
    assert(a.values@.is_prefix_of(c.values@)) by {
        assert(a.values@ == b.values@.subrange(0, a.values@.len() as int));
        assert(b.values@ == c.values@.subrange(0, b.values@.len() as int));
        assert(a.values@ =~= c.values@.subrange(0, a.values@.len() as int));
    }
    assert(a.gates@.is_prefix_of(c.gates@)) by {
        assert(a.gates@ == b.gates@.subrange(0, a.gates@.len() as int));
        assert(b.gates@ == c.gates@.subrange(0, b.gates@.len() as int));
        assert(a.gates@ =~= c.gates@.subrange(0, a.gates@.len() as int));
    }
    assert(a.publics@.is_prefix_of(c.publics@)) by {
        assert(a.publics@ == b.publics@.subrange(0, a.publics@.len() as int));
        assert(b.publics@ == c.publics@.subrange(0, b.publics@.len() as int));
        assert(a.publics@ =~= c.publics@.subrange(0, a.publics@.len() as int));
    }
}

/// Extension keeps the value exposed at every earlier public position.
pub proof fn lemma_public_values_prefix(prev: Composer, next: Composer)
    requires
        next.extends(prev),
        prev.wf(),
    ensures
        forall|i: int| 0 <= i < prev.publics@.len()
            ==> next.public_values()[i] == prev.public_values()[i],
{
    assert(prev.publics@ == next.publics@.subrange(0, prev.publics@.len() as int));
    assert forall|i: int| 0 <= i < prev.publics@.len()
        implies next.public_values()[i] == prev.public_values()[i] by {
        assert(next.publics@[i] == prev.publics@[i]);
        lemma_extends_preserves(prev, next, prev.publics@[i] as int);
    }
}

/// The witness-assignment and constraint state of a circuit being built.
pub struct Composer {
    /// The witness value of each variable.
    pub values: Vec<Felt>,
    /// The constraint structure emitted so far.
    pub gates: Vec<Gate>,
    /// The variables exposed as public inputs, in order.
    pub publics: Vec<usize>,
}

impl Composer {
    pub open spec fn n(self) -> int {
        self.values@.len() as int
    }

    /// The residue held by variable `i`.
    pub open spec fn v(self, i: int) -> int {
        val_of(self.values@, i)
    }

    /// The canonical bytes held by variable `i`.
    pub open spec fn vb(self, i: int) -> Seq<u8> {
        bytes_of(self.values@, i)
    }

    pub open spec fn wf(self) -> bool {
        &&& forall|i: int| 0 <= i < self.n() ==> (#[trigger] self.values@[i]).wf()
        &&& forall|i: int| 0 <= i < self.gates@.len()
            ==> (#[trigger] self.gates@[i]).in_bounds(self.n())
        &&& forall|i: int| 0 <= i < self.publics@.len()
            ==> (#[trigger] self.publics@[i]) < self.n()
    }

    /// Whether the witness meets every gate emitted so far.
    pub open spec fn satisfied(self) -> bool {
        forall|i: int| 0 <= i < self.gates@.len()
            ==> gate_ok_in(self.values@, #[trigger] self.gates@[i])
    }

    /// The later state keeps every variable, gate and public position of the
    /// earlier one.
    pub open spec fn extends(self, prev: Composer) -> bool {
        &&& prev.values@.is_prefix_of(self.values@)
        &&& prev.gates@.is_prefix_of(self.gates@)
        &&& prev.publics@.is_prefix_of(self.publics@)
    }

    /// The values the circuit exposes to the verifier, in order.
    pub open spec fn public_values(self) -> Seq<Seq<u8>> {
        Seq::new(self.publics@.len(), |i: int| self.vb(self.publics@[i] as int))
    }

    /// An empty circuit.
    pub fn new() -> (r: Composer)
        ensures
            r.wf(),
            r.satisfied(),
            r.n() == 0,
            r.gates@.len() == 0,
            r.publics@.len() == 0,
    {
        Composer { values: Vec::new(), gates: Vec::new(), publics: Vec::new() }
    }

    /// Allocate a fresh witness variable holding `val`.
    pub fn add_input(&mut self, val: Felt) -> (c: usize)
        requires
            old(self).wf(),
            val.wf(),
        ensures
            final(self).wf(),
            final(self).extends(*old(self)),
            forall|i: int| 0 <= i < old(self).n()
                ==> #[trigger] final(self).values@[i] == old(self).values@[i],
            final(self).values@ == old(self).values@.push(val),
            final(self).gates@ == old(self).gates@,
            final(self).publics@ == old(self).publics@,
            c == old(self).n(),
            final(self).satisfied() == old(self).satisfied(),
    {
        let c = self.values.len();
        self.values.push(val);
        proof {
            assert(old(self).values@.is_prefix_of(self.values@)) by {
                assert(old(self).values@ =~= self.values@.subrange(0, old(self).n()));
            }
            assert forall|i: int| 0 <= i < self.gates@.len() implies
                gate_ok_in(self.values@, self.gates@[i]) == gate_ok_in(old(self).values@,
                    self.gates@[i]) by {
                lemma_gate_ok_mono(old(self).values@, self.values@, self.gates@[i]);
            }
        }
        c
    }

    /// Emit a gate over existing variables; the result is satisfied exactly
    /// when the old state was and the new gate holds of the witness.
    fn push_gate(&mut self, g: Gate)
        requires
            old(self).wf(),
            g.in_bounds(old(self).n()),
        ensures
            final(self).wf(),
            final(self).extends(*old(self)),
            forall|i: int| 0 <= i < old(self).n()
                ==> #[trigger] final(self).values@[i] == old(self).values@[i],
            final(self).values@ == old(self).values@,
            final(self).gates@ == old(self).gates@.push(g),
            final(self).publics@ == old(self).publics@,
            final(self).satisfied() <==> (old(self).satisfied() && gate_ok_in(old(self).values@, g)),
    {
        self.gates.push(g);
        proof {
            assert(old(self).gates@.is_prefix_of(self.gates@)) by {
                assert(old(self).gates@ =~= self.gates@.subrange(0,
                    old(self).gates@.len() as int));
            }
            if old(self).satisfied() && gate_ok_in(old(self).values@, g) {
                assert forall|i: int| 0 <= i < self.gates@.len() implies
                    gate_ok_in(self.values@, self.gates@[i]) by {
                    if i < old(self).gates@.len() {
                        assert(gate_ok_in(old(self).values@, old(self).gates@[i]));
                    }
                }
            }
            if self.satisfied() {
                assert(gate_ok_in(old(self).values@, g)) by {
                    assert(self.gates@[old(self).gates@.len() as int] == g);
                }
                assert forall|i: int| 0 <= i < old(self).gates@.len() implies
                    gate_ok_in(old(self).values@, old(self).gates@[i]) by {
                    assert(self.gates@[i] == old(self).gates@[i]);
                }
            }
        }
    }

    /// Allocate a fresh variable holding `val` and emit a gate mentioning it.
    fn push_gate_with_value(&mut self, val: Felt, g: Gate) -> (c: usize)
        requires
            old(self).wf(),
            val.wf(),
            g.in_bounds(old(self).n() + 1),
        ensures
            final(self).wf(),
            final(self).extends(*old(self)),
            forall|i: int| 0 <= i < old(self).n()
                ==> #[trigger] final(self).values@[i] == old(self).values@[i],
            final(self).values@ == old(self).values@.push(val),
            final(self).gates@ == old(self).gates@.push(g),
            final(self).publics@ == old(self).publics@,
            c == old(self).n(),
            final(self).satisfied() <==> (old(self).satisfied()
                && gate_ok_in(old(self).values@.push(val), g)),
    {
        let c = self.add_input(val);
        let ghost mid = *self;
        self.push_gate(g);
        proof {
            assert(final(self).extends(*old(self))) by {
                assert(old(self).values@.is_prefix_of(self.values@));
                assert(old(self).gates@.is_prefix_of(self.gates@));
            }
        }
        c
    }

    /// Mark a variable as the next public-input position.
    pub fn expose(&mut self, a: usize)
        requires
            old(self).wf(),
            a < old(self).n(),
        ensures
            final(self).wf(),
            final(self).extends(*old(self)),
            forall|i: int| 0 <= i < old(self).n()
                ==> #[trigger] final(self).values@[i] == old(self).values@[i],
            final(self).values@ == old(self).values@,
            final(self).gates@ == old(self).gates@,
            final(self).publics@ == old(self).publics@.push(a),
            final(self).satisfied() == old(self).satisfied(),
    {
        self.publics.push(a);
        proof {
            assert(old(self).publics@.is_prefix_of(self.publics@)) by {
                assert(old(self).publics@ =~= self.publics@.subrange(0,
                    old(self).publics@.len() as int));
            }
        }
    }

    /// Allocate a variable pinned to the constant `k`.
    pub fn constant(&mut self, k: &Felt) -> (c: usize)
        requires
            old(self).wf(),
            k.wf(),
        ensures
            final(self).wf(),
            final(self).extends(*old(self)),
            forall|i: int| 0 <= i < old(self).n()
                ==> #[trigger] final(self).values@[i] == old(self).values@[i],
            final(self).n() == old(self).n() + 1,
            final(self).publics@ == old(self).publics@,
            final(self).gates@.len() == old(self).gates@.len() + 1,
            c == old(self).n(),
            final(self).vb(c as int) == k@,
            final(self).v(c as int) == k.as_int(),
            old(self).satisfied() ==> final(self).satisfied(),
    {
        let val = k.dup();
        let c = self.values.len();
        self.push_gate_with_value(val, Gate::ConstEq { k: k.dup(), a: c })
    }

    /// Emit `c = a + b` and return the fresh output variable.
    pub fn add_gate(&mut self, a: usize, b: usize) -> (c: usize)
        requires
            old(self).wf(),
            a < old(self).n(),
            b < old(self).n(),
        ensures
            final(self).wf(),
            final(self).extends(*old(self)),
            forall|i: int| 0 <= i < old(self).n()
                ==> #[trigger] final(self).values@[i] == old(self).values@[i],
            final(self).n() == old(self).n() + 1,
            final(self).publics@ == old(self).publics@,
            final(self).gates@.len() == old(self).gates@.len() + 1,
            c == old(self).n(),
            final(self).v(c as int) == (old(self).v(a as int) + old(self).v(b as int)) % p(),
            old(self).satisfied() ==> final(self).satisfied(),
    {
        let val = fp_add(&self.values[a], &self.values[b]);
        let c = self.values.len();
        self.push_gate_with_value(val, Gate::Add { a, b, c })
    }

    /// Emit `c = a - b` and return the fresh output variable.
    pub fn sub_gate(&mut self, a: usize, b: usize) -> (c: usize)
        requires
            old(self).wf(),
            a < old(self).n(),
            b < old(self).n(),
        ensures
            final(self).wf(),
            final(self).extends(*old(self)),
            forall|i: int| 0 <= i < old(self).n()
                ==> #[trigger] final(self).values@[i] == old(self).values@[i],
            final(self).n() == old(self).n() + 1,
            final(self).publics@ == old(self).publics@,
            final(self).gates@.len() == old(self).gates@.len() + 1,
            c == old(self).n(),
            final(self).v(c as int) == (old(self).v(a as int) - old(self).v(b as int)) % p(),
            old(self).satisfied() ==> final(self).satisfied(),
    {
        let val = fp_sub(&self.values[a], &self.values[b]);
        let c = self.values.len();
        self.push_gate_with_value(val, Gate::Sub { a, b, c })
    }

    /// Emit `c = a * b` and return the fresh output variable.
    pub fn mul_gate(&mut self, a: usize, b: usize) -> (c: usize)
        requires
            old(self).wf(),
            a < old(self).n(),
            b < old(self).n(),
        ensures
            final(self).wf(),
            final(self).extends(*old(self)),
            forall|i: int| 0 <= i < old(self).n()
                ==> #[trigger] final(self).values@[i] == old(self).values@[i],
            final(self).n() == old(self).n() + 1,
            final(self).publics@ == old(self).publics@,
            final(self).gates@.len() == old(self).gates@.len() + 1,
            c == old(self).n(),
            final(self).v(c as int) == (old(self).v(a as int) * old(self).v(b as int)) % p(),
            old(self).satisfied() ==> final(self).satisfied(),
    {
        let val = fp_mul(&self.values[a], &self.values[b]);
        let c = self.values.len();
        self.push_gate_with_value(val, Gate::Mul { a, b, c })
    }

    /// Emit `c = k * a` for a fixed coefficient `k`.
    pub fn mul_const_gate(&mut self, k: &Felt, a: usize) -> (c: usize)
        requires
            old(self).wf(),
            k.wf(),
            a < old(self).n(),
        ensures
            final(self).wf(),
            final(self).extends(*old(self)),
            forall|i: int| 0 <= i < old(self).n()
                ==> #[trigger] final(self).values@[i] == old(self).values@[i],
            final(self).n() == old(self).n() + 1,
            final(self).publics@ == old(self).publics@,
            final(self).gates@.len() == old(self).gates@.len() + 1,
            c == old(self).n(),
            final(self).v(c as int) == (k.as_int() * old(self).v(a as int)) % p(),
            old(self).satisfied() ==> final(self).satisfied(),
    {
        let val = fp_mul(k, &self.values[a]);
        let c = self.values.len();
        self.push_gate_with_value(val, Gate::MulConst { k: k.dup(), a, c })
    }

    /// Emit `c = hash2(a, b)` and return the fresh output variable.
    pub fn hash2_gate(&mut self, a: usize, b: usize) -> (c: usize)
        requires
            old(self).wf(),
            a < old(self).n(),
            b < old(self).n(),
        ensures
            final(self).wf(),
            final(self).extends(*old(self)),
            forall|i: int| 0 <= i < old(self).n()
                ==> #[trigger] final(self).values@[i] == old(self).values@[i],
            final(self).n() == old(self).n() + 1,
            final(self).publics@ == old(self).publics@,
            final(self).gates@.len() == old(self).gates@.len() + 1,
            c == old(self).n(),
            final(self).vb(c as int) == poseidon2_of(old(self).vb(a as int), old(self).vb(b as int)),
            old(self).satisfied() ==> final(self).satisfied(),
    {
        let val = poseidon_hash2(&self.values[a], &self.values[b]);
        let c = self.values.len();
        self.push_gate_with_value(val, Gate::Hash2 { a, b, c })
    }

    /// Emit `c = hash8(m)` for eight existing variables.
    pub fn hash8_gate(&mut self, m: &Vec<usize>) -> (c: usize)
        requires
            old(self).wf(),
            m@.len() == 8,
            forall|i: int| 0 <= i < 8 ==> m@[i] < old(self).n(),
        ensures
            final(self).wf(),
            final(self).extends(*old(self)),
            forall|i: int| 0 <= i < old(self).n()
                ==> #[trigger] final(self).values@[i] == old(self).values@[i],
            final(self).n() == old(self).n() + 1,
            final(self).publics@ == old(self).publics@,
            final(self).gates@.len() == old(self).gates@.len() + 1,
            c == old(self).n(),
            final(self).vb(c as int)
                == poseidon8_of(Seq::new(8, |i: int| old(self).vb(m@[i] as int))),
            old(self).satisfied() ==> final(self).satisfied(),
    {
        let mut msg: Vec<Felt> = Vec::new();
        let mut idx: Vec<usize> = Vec::new();
        for i in 0..8usize
            invariant
                msg@.len() == i,
                idx@.len() == i,
                m@.len() == 8,
                forall|j: int| 0 <= j < 8 ==> m@[j] < self.n(),
                self.wf(),
                forall|j: int| 0 <= j < i ==> idx@[j] == m@[j],
                forall|j: int| 0 <= j < i ==> (#[trigger] msg@[j])@ == self.vb(m@[j] as int),
                forall|j: int| 0 <= j < i ==> (#[trigger] msg@[j]).wf(),
        {
            msg.push(self.values[m[i]].dup());
            idx.push(m[i]);
        }
        let val = poseidon_hash8(&msg);
        let c = self.values.len();
        let ghost prev = *self;
        let ghost gi = idx@;
        proof {
            assert(gi =~= m@);
            assert(msg@.map_values(|f: Felt| f@)
                =~= Seq::new(8, |i: int| bytes_of(prev.values@, m@[i] as int)));
        }
        let r = self.push_gate_with_value(val, Gate::Hash8 { m: idx, c });
        proof {
            let g = self.gates@.last();
            let pushed = prev.values@.push(val);
            assert(self.gates@ == prev.gates@.push(g));
            match g {
                Gate::Hash8 { m: mm, c: cc } => {
                    assert(mm@ == gi && cc == c);
                    assert(Seq::new(8, |i: int| bytes_of(pushed, mm@[i] as int))
                        =~= Seq::new(8, |i: int| bytes_of(prev.values@, m@[i] as int)));
                    assert(bytes_of(pushed, c as int) == val@);
                    assert(gate_ok_in(pushed, g));
                },
                _ => {
                    assert(false);
                },
            }
            assert(Seq::new(8, |i: int| bytes_of(prev.values@, m@[i] as int))
                =~= Seq::new(8, |i: int| old(self).vb(m@[i] as int)));
            assert(self.vb(c as int) == val@);
        }
        r
    }

    /// Constrain two variables to be equal; the witness is checked at once,
    /// and a mismatch is a fatal constraint violation.
    pub fn assert_equal(&mut self, a: usize, b: usize) -> (r: Result<(), TaigaError>)
        requires
            old(self).wf(),
            a < old(self).n(),
            b < old(self).n(),
        ensures
            final(self).wf(),
            final(self).extends(*old(self)),
            forall|i: int| 0 <= i < old(self).n()
                ==> #[trigger] final(self).values@[i] == old(self).values@[i],
            final(self).values@ == old(self).values@,
            final(self).publics@ == old(self).publics@,
            final(self).n() == old(self).n(),
            final(self).gates@ == old(self).gates@.push(Gate::AssertEq { a, b }),
            r.is_ok() <==> old(self).vb(a as int) == old(self).vb(b as int),
            r.is_err() ==> r == Err::<(), TaigaError>(TaigaError::ConstraintViolation),
            final(self).satisfied() <==> (old(self).satisfied()
                && old(self).vb(a as int) == old(self).vb(b as int)),
    {
        let eq = {
            let x = &self.values[a];
            x.eq_felt(&self.values[b])
        };
        self.push_gate(Gate::AssertEq { a, b });
        if eq {
            Ok(())
        } else {
            Err(TaigaError::ConstraintViolation)
        }
    }

    /// Constrain a variable to be boolean; a non-boolean witness is a fatal
    /// constraint violation.
    pub fn bool_check(&mut self, a: usize) -> (r: Result<(), TaigaError>)
        requires
            old(self).wf(),
            a < old(self).n(),
        ensures
            final(self).wf(),
            final(self).extends(*old(self)),
            forall|i: int| 0 <= i < old(self).n()
                ==> #[trigger] final(self).values@[i] == old(self).values@[i],
            final(self).values@ == old(self).values@,
            final(self).publics@ == old(self).publics@,
            final(self).gates@.len() == old(self).gates@.len() + 1,
            final(self).n() == old(self).n(),
            r.is_ok() <==> (old(self).v(a as int) == 0 || old(self).v(a as int) == 1),
            r.is_err() ==> r == Err::<(), TaigaError>(TaigaError::ConstraintViolation),
            final(self).satisfied() <==> (old(self).satisfied()
                && (old(self).v(a as int) == 0 || old(self).v(a as int) == 1)),
    {
        let zero = Felt::from_u64(0);
        let one = Felt::from_u64(1);
        let ok = {
            let x = &self.values[a];
            x.eq_felt(&zero) || x.eq_felt(&one)
        };
        proof {
            let xb = self.values@[a as int]@;
            if self.v(a as int) == 0 {
                lemma_le_int_injective(xb, zero@);
            }
            if self.v(a as int) == 1 {
                lemma_le_int_injective(xb, one@);
            }
        }
        self.push_gate(Gate::BoolCheck { a });
        if ok {
            Ok(())
        } else {
            Err(TaigaError::ConstraintViolation)
        }
    }

    /// Constrain a variable to fit in 64 bits; a wider witness is a fatal
    /// constraint violation.
    pub fn range64_check(&mut self, a: usize) -> (r: Result<(), TaigaError>)
        requires
            old(self).wf(),
            a < old(self).n(),
        ensures
            final(self).wf(),
            final(self).extends(*old(self)),
            forall|i: int| 0 <= i < old(self).n()
                ==> #[trigger] final(self).values@[i] == old(self).values@[i],
            final(self).values@ == old(self).values@,
            final(self).publics@ == old(self).publics@,
            final(self).gates@.len() == old(self).gates@.len() + 1,
            final(self).n() == old(self).n(),
            r.is_ok() <==> old(self).v(a as int) < pow2(64),
            r.is_err() ==> r == Err::<(), TaigaError>(TaigaError::ConstraintViolation),
            final(self).satisfied() <==> (old(self).satisfied()
                && old(self).v(a as int) < pow2(64)),
    {
        let mut ok = true;
        let ghost xb = self.values@[a as int]@;
        for i in 8..32usize
            invariant
                self.wf(),
                a < self.n(),
                xb == self.values@[a as int]@,
                xb.len() == 32,
                ok <==> (forall|j: int| 8 <= j < i ==> xb[j] == 0),
        {
            let x = &self.values[a];
            if x.bytes[i] != 0 {
                ok = false;
            }
        }
        proof {
            if ok {
                assert(xb =~= xb.subrange(0, 8) + xb.skip(8));
                lemma_le_int_app(xb.subrange(0, 8), xb.skip(8));
                lemma_le_int_zero(xb.skip(8));
                lemma_le_int_bound(xb.subrange(0, 8));
                assert(le_int(xb) == le_int(xb.subrange(0, 8)));
            } else {
                let j = choose|j: int| 8 <= j < 32 && xb[j] != 0;
                lemma_le_int_lower(xb, j);
                lemma2_to64();
                lemma2_to64_rest();
                if 8 * j > 64 {
                    lemma_pow2_strictly_increases(64, (8 * j) as nat);
                }
                assert(pow2((8 * j) as nat) * xb[j] >= pow2((8 * j) as nat) * 1)
                    by (nonlinear_arith)
                    requires xb[j] >= 1;
            }
        }
        self.push_gate(Gate::Range64 { a });
        if ok {
            Ok(())
        } else {
            Err(TaigaError::ConstraintViolation)
        }
    }
}

} // verus!
