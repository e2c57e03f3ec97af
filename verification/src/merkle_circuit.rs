//! The Merkle membership gadget: folds a leaf and an ordered sibling path
//! into a root, in the circuit and natively, over the arity-2 hash.

use vstd::prelude::*;
use crate::felt::{Felt, lemma_mod_small, lemma_mod_diff, lemma_le_int_injective};
use crate::hash::{poseidon2_of, poseidon_hash2};
use crate::composer::{Composer, lemma_extends_preserves, lemma_extends_trans};

verus! {

/// The mathematical view of a Merkle path: sibling bytes and a direction bit
/// per level, leaf to root; `false` means the running value is the left child.
pub open spec fn path_view(path: Seq<(Felt, bool)>) -> Seq<(Seq<u8>, bool)> {
    path.map_values(|e: (Felt, bool)| (e.0@, e.1))
}

/// Every sibling on the path is a canonical residue.
pub open spec fn path_wf(path: Seq<(Felt, bool)>) -> bool {
    forall|i: int| 0 <= i < path.len() ==> (#[trigger] path[i]).0.wf()
}

/// The root reached from a leaf along a path, leaf level first.
pub open spec fn merkle_root_of(leaf: Seq<u8>, path: Seq<(Seq<u8>, bool)>) -> Seq<u8>
    decreases path.len(),
{
    if path.len() == 0 {
        leaf
    } else {
        let next = if path[0].1 {
            poseidon2_of(path[0].0, leaf)
        } else {
            poseidon2_of(leaf, path[0].0)
        };
        merkle_root_of(next, path.skip(1))
    }
}

/// The native recomputation of the root from a leaf and a path.
pub fn merkle_root(leaf: &Felt, path: &Vec<(Felt, bool)>) -> (r: Felt)
    requires
        leaf.wf(),
        path_wf(path@),
    ensures
        r.wf(),
        r@ == merkle_root_of(leaf@, path_view(path@)),
{
    let mut cur = leaf.dup();
    let n = path.len();
    proof {
        assert(path_view(path@).skip(0) =~= path_view(path@));
    }
    for i in 0..n
        invariant
            n == path@.len(),
            path_wf(path@),
            cur.wf(),
            merkle_root_of(cur@, path_view(path@).skip(i as int))
                == merkle_root_of(leaf@, path_view(path@)),
    {
        let e = &path[i];
        let next = if e.1 {
            poseidon_hash2(&e.0, &cur)
        } else {
            poseidon_hash2(&cur, &e.0)
        };
        proof {
            let pv = path_view(path@);
            assert(pv.skip(i as int)[0] == (path@[i as int].0@, path@[i as int].1));
            assert(pv.skip(i as int).skip(1) =~= pv.skip(i + 1));
        }
        cur = next;
    }
    proof {
        assert(path_view(path@).skip(n as int) =~= Seq::<(Seq<u8>, bool)>::empty());
    }
    cur
}

/// The constant-cost conditional-swap sub-gadget: emits a boolean check on
/// the bit and arithmetic gates computing `(l, r)`, which are `(a, b)` when
/// the bit is 0 and `(b, a)` when it is 1.
pub fn cond_swap_gadget(cs: &mut Composer, a: usize, b: usize, s: usize) -> (lr: (usize, usize))
    requires
        old(cs).wf(),
        a < old(cs).n(),
        b < old(cs).n(),
        s < old(cs).n(),
        old(cs).v(s as int) == 0 || old(cs).v(s as int) == 1,
    ensures
        final(cs).wf(),
        final(cs).extends(*old(cs)),
        final(cs).publics@ == old(cs).publics@,
        lr.0 < final(cs).n(),
        lr.1 < final(cs).n(),
        old(cs).v(s as int) == 0 ==> final(cs).vb(lr.0 as int) == old(cs).vb(a as int)
            && final(cs).vb(lr.1 as int) == old(cs).vb(b as int),
        old(cs).v(s as int) == 1 ==> final(cs).vb(lr.0 as int) == old(cs).vb(b as int)
            && final(cs).vb(lr.1 as int) == old(cs).vb(a as int),
        old(cs).satisfied() ==> final(cs).satisfied(),
    {
    let ghost c0 = *cs;
    let _ = cs.bool_check(s);
    let ghost c1 = *cs;
    let d1 = cs.sub_gate(b, a);
    let ghost c2 = *cs;
    let m1 = cs.mul_gate(s, d1);
    let ghost c3 = *cs;
    let l = cs.add_gate(a, m1);
    let ghost c4 = *cs;
    let d2 = cs.sub_gate(a, b);
    let ghost c5 = *cs;
    let m2 = cs.mul_gate(s, d2);
    let ghost c6 = *cs;
    let r = cs.add_gate(b, m2);
    proof {
        let va = c0.v(a as int);
        let vbb = c0.v(b as int);
        let vs = c0.v(s as int);
        lemma_extends_trans(c0, c1, c2);
        lemma_extends_trans(c0, c2, c3);
        lemma_extends_trans(c0, c3, c4);
        lemma_extends_trans(c0, c4, c5);
        lemma_extends_trans(c0, c5, c6);
        lemma_extends_trans(c0, c6, *cs);
        lemma_extends_preserves(c1, c2, a as int);
        lemma_extends_preserves(c1, c2, b as int);
        lemma_extends_preserves(c0, c2, s as int);
        lemma_extends_preserves(c2, c3, a as int);
        lemma_extends_preserves(c2, c3, b as int);
        lemma_extends_preserves(c0, c3, a as int);
        lemma_extends_preserves(c3, c4, d1 as int);
        lemma_extends_preserves(c0, c4, a as int);
        lemma_extends_preserves(c0, c4, b as int);
        lemma_extends_preserves(c0, c4, s as int);
        lemma_extends_preserves(c4, c5, s as int);
        lemma_extends_preserves(c0, c5, b as int);
        lemma_extends_preserves(c5, c6, b as int);
        lemma_extends_preserves(c4, *cs, l as int);
        lemma_extends_preserves(c5, *cs, l as int);
        lemma_extends_preserves(c6, *cs, l as int);
        // the two differences
        assert(c2.v(d1 as int) == (vbb - va) % crate::felt::p());
        assert(c5.v(d2 as int) == (va - vbb) % crate::felt::p());
        lemma_mod_diff(vbb, va);
        lemma_mod_diff(va, vbb);
        let p = crate::felt::p();
        if vs == 0 {
            assert(c3.v(m1 as int) == (vs * c2.v(d1 as int)) % p);
            assert(vs * c2.v(d1 as int) == 0) by (nonlinear_arith)
                requires vs == 0;
            lemma_mod_small(0);
            assert(c4.v(l as int) == (va + 0) % p);
            lemma_mod_small(va);
            assert(c4.v(l as int) == va);
            assert(c6.v(m2 as int) == (vs * c5.v(d2 as int)) % p);
            assert(vs * c5.v(d2 as int) == 0) by (nonlinear_arith)
                requires vs == 0;
            assert(cs.v(r as int) == (vbb + 0) % p);
            lemma_mod_small(vbb);
            lemma_le_int_injective(cs.vb(l as int), c0.vb(a as int));
            lemma_le_int_injective(cs.vb(r as int), c0.vb(b as int));
        } else {
            let dv1 = c2.v(d1 as int);
            let dv2 = c5.v(d2 as int);
            assert(c3.v(m1 as int) == (vs * dv1) % p);
            assert(vs * dv1 == dv1) by (nonlinear_arith)
                requires vs == 1;
            lemma_mod_small(dv1);
            assert(c4.v(l as int) == (va + dv1) % p);
            if vbb >= va {
                lemma_mod_small(va + dv1);
            } else {
                crate::felt::lemma_mod_shift(va + dv1);
            }
            assert(c4.v(l as int) == vbb);
            assert(c6.v(m2 as int) == (vs * dv2) % p);
            assert(vs * dv2 == dv2) by (nonlinear_arith)
                requires vs == 1;
            lemma_mod_small(dv2);
            assert(cs.v(r as int) == (vbb + dv2) % p);
            if va >= vbb {
                lemma_mod_small(vbb + dv2);
            } else {
                crate::felt::lemma_mod_shift(vbb + dv2);
            }
            assert(cs.v(r as int) == va);
            lemma_le_int_injective(cs.vb(l as int), c0.vb(b as int));
            lemma_le_int_injective(cs.vb(r as int), c0.vb(a as int));
        }
    }
    (l, r)
}

/// The Merkle membership gadget: starting from the leaf variable, each level
/// conditionally swaps the running value with the witnessed sibling and
/// hashes the ordered pair; the final variable carries the claimed root.
pub fn merkle_poseidon_gadget(cs: &mut Composer, note_x: usize, merkle_path: &Vec<(Felt, bool)>)
    -> (root: usize)
    requires
        old(cs).wf(),
        note_x < old(cs).n(),
        path_wf(merkle_path@),
    ensures
        final(cs).wf(),
        final(cs).extends(*old(cs)),
        final(cs).publics@ == old(cs).publics@,
        root < final(cs).n(),
        final(cs).vb(root as int)
            == merkle_root_of(old(cs).vb(note_x as int), path_view(merkle_path@)),
        old(cs).satisfied() ==> final(cs).satisfied(),
{
    let ghost c0 = *cs;
    let mut cur = note_x;
    let n = merkle_path.len();
    proof {
        assert(path_view(merkle_path@).skip(0) =~= path_view(merkle_path@));
    }
    for i in 0..n
        invariant
            n == merkle_path@.len(),
            path_wf(merkle_path@),
            cs.wf(),
            cs.extends(c0),
            cs.publics@ == c0.publics@,
            cur < cs.n(),
            merkle_root_of(cs.vb(cur as int), path_view(merkle_path@).skip(i as int))
                == merkle_root_of(c0.vb(note_x as int), path_view(merkle_path@)),
            c0.satisfied() ==> cs.satisfied(),
    {
        let ghost s0 = *cs;
        let e = &merkle_path[i];
        let sib = cs.add_input(e.0.dup());
        let ghost s1 = *cs;
        let bit = cs.add_input(if e.1 { Felt::from_u64(1) } else { Felt::from_u64(0) });
        let ghost s2 = *cs;
        proof {
            lemma_extends_preserves(s1, s2, sib as int);
            lemma_extends_preserves(s0, s1, cur as int);
            lemma_extends_preserves(s1, s2, cur as int);
        }
        let (lv, rv) = cond_swap_gadget(cs, cur, sib, bit);
        let ghost s3 = *cs;
        let next = cs.hash2_gate(lv, rv);
        proof {
            let pv = path_view(merkle_path@);
            lemma_extends_preserves(s3, *cs, lv as int);
            lemma_extends_preserves(s3, *cs, rv as int);
            assert(s2.vb(sib as int) == merkle_path@[i as int].0@);
            assert(pv.skip(i as int)[0] == (merkle_path@[i as int].0@, merkle_path@[i as int].1));
            assert(pv.skip(i as int).skip(1) =~= pv.skip(i + 1));
            if merkle_path@[i as int].1 {
                assert(s2.v(bit as int) == 1);
                assert(cs.vb(next as int) == poseidon2_of(s2.vb(sib as int), s2.vb(cur as int)));
            } else {
                assert(s2.v(bit as int) == 0);
                assert(cs.vb(next as int) == poseidon2_of(s2.vb(cur as int), s2.vb(sib as int)));
            }
            lemma_extends_trans(s0, s1, s2);
            lemma_extends_trans(s0, s2, s3);
            lemma_extends_trans(s0, s3, *cs);
            lemma_extends_trans(c0, s0, *cs);
        }
        cur = next;
    }
    proof {
        assert(path_view(merkle_path@).skip(n as int) =~= Seq::<(Seq<u8>, bool)>::empty());
    }
    cur
}

} // verus!
