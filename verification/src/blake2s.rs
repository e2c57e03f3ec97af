//! The bit-oriented compression-function hash backend, expressed over the
//! scalar field as the circuit does: "xor" is `x + y - x*y`, "rotate" is
//! multiplication by a fixed power of two, and "shift right" multiplication
//! by the inverse of a power of two. Field arithmetic has no `2^32`
//! wraparound, so these do not enforce true word-rotation semantics; the
//! backend reproduces that deliberate deviation, and the native evaluation
//! here is defined as the same field-arithmetic computation, so that the
//! circuit and native paths agree on every input.

use vstd::prelude::*;
use vstd::arithmetic::power2::{pow2, lemma_pow2_pos};
use vstd::arithmetic::div_mod::lemma_sub_mod_noop;
use crate::felt::{Felt, p, fp_add, fp_sub, fp_mul, fp_invert};
use crate::composer::{Composer, lemma_extends_trans};

verus! {

/// Field addition of two residues.
pub open spec fn fadd(x: int, y: int) -> int {
    (x + y) % p()
}

/// The field "xor" the circuit uses: `x + y - x*y`, reduced.
pub open spec fn fxor(x: int, y: int) -> int {
    (x + y - x * y) % p()
}

/// Multiplication by a fixed coefficient, reduced.
pub open spec fn fmulc(k: int, x: int) -> int {
    (k * x) % p()
}

/// The message-permutation table: row `r` gives the word order of round `r`.
pub open spec fn sigma_spec(r: int, i: int) -> int {
    seq![
        seq![0int, 1, 2, 3, 4, 5, 6, 7, 8, 9, 10, 11, 12, 13, 14, 15],
        seq![14int, 10, 4, 8, 9, 15, 13, 6, 1, 12, 0, 2, 11, 7, 5, 3],
        seq![11int, 8, 12, 0, 5, 2, 15, 13, 10, 14, 3, 6, 7, 1, 9, 4],
        seq![7int, 9, 3, 1, 13, 12, 11, 14, 2, 6, 5, 10, 4, 0, 15, 8],
        seq![9int, 0, 5, 7, 2, 4, 10, 15, 14, 1, 11, 12, 6, 8, 3, 13],
        seq![2int, 12, 6, 10, 0, 11, 8, 3, 4, 13, 7, 5, 15, 14, 1, 9],
        seq![12int, 5, 1, 15, 14, 13, 4, 10, 0, 7, 6, 3, 9, 2, 8, 11],
        seq![13int, 11, 7, 14, 12, 1, 3, 9, 5, 0, 15, 4, 8, 6, 2, 10],
        seq![6int, 15, 14, 9, 11, 3, 0, 8, 12, 2, 13, 7, 1, 4, 10, 5],
        seq![10int, 2, 8, 4, 7, 6, 1, 5, 15, 11, 9, 14, 3, 12, 13, 0],
    ][r][i]
}

/// One application of the mixing function over an eight-word state: two
/// add-xor-rotate stages, with the rotations of the original word algorithm
/// rendered as fixed power-of-two coefficients.
pub open spec fn g_spec(s: Seq<int>, mx: int, my: int) -> Seq<int> {
    let a1 = fadd(fadd(s[0], s[4]), mx);
    let d1 = fmulc(pow2(240) as int, fxor(s[3], a1));
    let c1 = fadd(s[2], d1);
    let b1 = fmulc(pow2(244) as int, fxor(s[1], c1));
    let a2 = fadd(fadd(a1, b1), my);
    let d2 = fmulc(pow2(248) as int, fxor(d1, a2));
    let c2 = fadd(c1, d2);
    let b2 = fmulc(pow2(249) as int, fxor(b1, c2));
    seq![a2, b2, c2, d2, s[4], s[5], s[6], s[7]]
}

/// The state after `k` of the 80 mixing-function applications, with the
/// message pair of each application chosen by the permutation table.
pub open spec fn round_states(st: Seq<int>, m: Seq<int>, k: int) -> Seq<int>
    decreases k,
{
    if k <= 0 {
        st
    } else {
        let r = (k - 1) / 8;
        let gi = (k - 1) % 8;
        g_spec(round_states(st, m, k - 1), m[sigma_spec(r, 2 * gi)],
            m[sigma_spec(r, 2 * gi + 1)])
    }
}

/// The whole compression: ten rounds of eight mixing applications, then the
/// final feed-forward addition with the initial state.
pub open spec fn compress_spec(st: Seq<int>, m: Seq<int>) -> Seq<int> {
    Seq::new(8, |i: int| fadd(st[i], round_states(st, m, 80)[i]))
}

/// The eight-word initialization vector of the compression backend,
/// published as field elements usable by both evaluation paths.
pub fn blake2s_iv() -> (r: Vec<Felt>)
    ensures
        r@.len() == 8,
        forall|i: int| 0 <= i < 8 ==> (#[trigger] r@[i]).wf(),
        Seq::new(8, |i: int| r@[i].as_int()) =~= seq![
            0x6A09E667int, 0xBB67AE85, 0x3C6EF372, 0xA54FF53A,
            0x510E527F, 0x9B05688C, 0x1F83D9AB, 0x5BE0CD19,
        ],
{
    let mut r: Vec<Felt> = Vec::new();
    r.push(Felt::from_u64(0x6A09E667));
    r.push(Felt::from_u64(0xBB67AE85));
    r.push(Felt::from_u64(0x3C6EF372));
    r.push(Felt::from_u64(0xA54FF53A));
    r.push(Felt::from_u64(0x510E527F));
    r.push(Felt::from_u64(0x9B05688C));
    r.push(Felt::from_u64(0x1F83D9AB));
    r.push(Felt::from_u64(0x5BE0CD19));
    proof {
        assert(Seq::new(8, |i: int| r@[i].as_int()) =~= seq![
            0x6A09E667int, 0xBB67AE85, 0x3C6EF372, 0xA54FF53A,
            0x510E527F, 0x9B05688C, 0x1F83D9AB, 0x5BE0CD19,
        ]);
    }
    r
}

/// The fixed coefficients of the backend: the rotation powers of two and the
/// shift-right inverses.
pub struct Blake2sConfig {
    pub rot16: Felt,
    pub rot12: Felt,
    pub rot8: Felt,
    pub rot7: Felt,
    pub rot17: Felt,
    pub rot18: Felt,
    pub rot19: Felt,
    pub shr3: Felt,
    pub shr10: Felt,
}

impl Blake2sConfig {
    pub open spec fn wf(self) -> bool {
        &&& self.rot16.wf() && self.rot16.as_int() == pow2(240)
        &&& self.rot12.wf() && self.rot12.as_int() == pow2(244)
        &&& self.rot8.wf() && self.rot8.as_int() == pow2(248)
        &&& self.rot7.wf() && self.rot7.as_int() == pow2(249)
        &&& self.rot17.wf() && self.rot17.as_int() == pow2(239)
        &&& self.rot18.wf() && self.rot18.as_int() == pow2(238)
        &&& self.rot19.wf() && self.rot19.as_int() == pow2(237)
        &&& self.shr3.wf() && (pow2(3) * self.shr3.as_int()) % p() == 1
        &&& self.shr10.wf() && (pow2(10) * self.shr10.as_int()) % p() == 1
    }

    /// Build the fixed coefficient set.
    pub fn configure() -> (r: Blake2sConfig)
        ensures
            r.wf(),
    {
        let two3 = Felt::two_pow(3);
        let two10 = Felt::two_pow(10);
        proof {
            lemma_pow2_pos(3);
            lemma_pow2_pos(10);
        }
        let shr3 = fp_invert(&two3);
        let shr10 = fp_invert(&two10);
        Blake2sConfig {
            rot16: Felt::two_pow(240),
            rot12: Felt::two_pow(244),
            rot8: Felt::two_pow(248),
            rot7: Felt::two_pow(249),
            rot17: Felt::two_pow(239),
            rot18: Felt::two_pow(238),
            rot19: Felt::two_pow(237),
            shr3,
            shr10,
        }
    }
}

/// The compression-hash gadget builder.
pub struct Blake2sChip {
    pub config: Blake2sConfig,
}

impl Blake2sChip {
    pub open spec fn wf(self) -> bool {
        self.config.wf()
    }

    /// The first mixing sub-function of the schedule: two rotations and a
    /// 3-bit shift of one word, xored together.
    pub open spec fn s0_spec(self, w: int) -> int {
        fxor(fxor(fmulc(pow2(249) as int, w), fmulc(pow2(238) as int, w)),
            fmulc(self.config.shr3.as_int(), w))
    }

    /// The second mixing sub-function of the schedule: two rotations and a
    /// 10-bit shift of one word, xored together.
    pub open spec fn s1_spec(self, w: int) -> int {
        fxor(fxor(fmulc(pow2(239) as int, w), fmulc(pow2(237) as int, w)),
            fmulc(self.config.shr10.as_int(), w))
    }

    /// One derived schedule word: earlier words folded in with the two
    /// mixing sub-functions and two additions.
    pub open spec fn sched_word_spec(self, w16: int, w15: int, w7: int, w2: int) -> int {
        fadd(fadd(fadd(w16, self.s0_spec(w15)), w7), self.s1_spec(w2))
    }

    pub fn construct(config: Blake2sConfig) -> (r: Blake2sChip)
        requires
            config.wf(),
        ensures
            r.wf(),
    {
        Blake2sChip { config }
    }

    /// The field "xor" gadget: emits `t = x*y`, `s = x+y`, `out = s - t`.
    pub fn xor(&self, cs: &mut Composer, x: usize, y: usize) -> (out: usize)
        requires
            old(cs).wf(),
            x < old(cs).n(),
            y < old(cs).n(),
        ensures
            final(cs).wf(),
            final(cs).extends(*old(cs)),
            forall|i: int| 0 <= i < old(cs).n()
                ==> #[trigger] final(cs).values@[i] == old(cs).values@[i],
            final(cs).publics@ == old(cs).publics@,
            final(cs).gates@.len() == old(cs).gates@.len() + 3,
            final(cs).n() == old(cs).n() + 3,
            out < final(cs).n(),
            final(cs).v(out as int) == fxor(old(cs).v(x as int), old(cs).v(y as int)),
            old(cs).satisfied() ==> final(cs).satisfied(),
    {
        let ghost c0 = *cs;
        let t = cs.mul_gate(x, y);
        let ghost c1 = *cs;
        let s = cs.add_gate(x, y);
        let ghost c2 = *cs;
        let out = cs.sub_gate(s, t);
        proof {
            lemma_extends_trans(c0, c1, c2);
            lemma_extends_trans(c0, c2, *cs);
            let vx = c0.v(x as int);
            let vy = c0.v(y as int);
            assert(c2.v(s as int) == (vx + vy) % p());
            assert(c2.v(t as int) == (vx * vy) % p());
            lemma_sub_mod_noop(vx + vy, vx * vy, p());
            assert(cs.v(out as int) == ((vx + vy) % p() - (vx * vy) % p()) % p());
        }
        out
    }

    /// The "rotate" gadget: multiplication by the fixed power of two that
    /// stands in for the word rotation over the field.
    pub fn rotate(&self, cs: &mut Composer, x: usize, rotation: i32) -> (out: usize)
        requires
            old(cs).wf(),
            self.wf(),
            x < old(cs).n(),
            rotation == -16 || rotation == -12 || rotation == -8 || rotation == -7
                || rotation == -17 || rotation == -18 || rotation == -19,
        ensures
            final(cs).wf(),
            final(cs).extends(*old(cs)),
            forall|i: int| 0 <= i < old(cs).n()
                ==> #[trigger] final(cs).values@[i] == old(cs).values@[i],
            final(cs).publics@ == old(cs).publics@,
            final(cs).gates@.len() == old(cs).gates@.len() + 1,
            final(cs).n() == old(cs).n() + 1,
            out < final(cs).n(),
            final(cs).v(out as int)
                == fmulc(pow2((256 + rotation) as nat) as int, old(cs).v(x as int)),
            old(cs).satisfied() ==> final(cs).satisfied(),
    {
        if rotation == -16 {
            cs.mul_const_gate(&self.config.rot16, x)
        } else if rotation == -12 {
            cs.mul_const_gate(&self.config.rot12, x)
        } else if rotation == -8 {
            cs.mul_const_gate(&self.config.rot8, x)
        } else if rotation == -7 {
            cs.mul_const_gate(&self.config.rot7, x)
        } else if rotation == -17 {
            cs.mul_const_gate(&self.config.rot17, x)
        } else if rotation == -18 {
            cs.mul_const_gate(&self.config.rot18, x)
        } else {
            cs.mul_const_gate(&self.config.rot19, x)
        }
    }

    /// The "shift right" gadget: multiplication by the inverse of a power of
    /// two.
    pub fn shift_right(&self, cs: &mut Composer, x: usize, shift: u32) -> (out: usize)
        requires
            old(cs).wf(),
            self.wf(),
            x < old(cs).n(),
            shift == 3 || shift == 10,
        ensures
            final(cs).wf(),
            final(cs).extends(*old(cs)),
            forall|i: int| 0 <= i < old(cs).n()
                ==> #[trigger] final(cs).values@[i] == old(cs).values@[i],
            final(cs).publics@ == old(cs).publics@,
            final(cs).gates@.len() == old(cs).gates@.len() + 1,
            final(cs).n() == old(cs).n() + 1,
            out < final(cs).n(),
            final(cs).v(out as int) == fmulc(self.shr_coeff(shift as int),
                old(cs).v(x as int)),
            old(cs).satisfied() ==> final(cs).satisfied(),
    {
        if shift == 3 {
            cs.mul_const_gate(&self.config.shr3, x)
        } else {
            cs.mul_const_gate(&self.config.shr10, x)
        }
    }

    /// The coefficient the shift-right gadget multiplies by.
    pub open spec fn shr_coeff(self, shift: int) -> int {
        if shift == 3 {
            self.config.shr3.as_int()
        } else {
            self.config.shr10.as_int()
        }
    }

    /// One add-xor-rotate stage: the running word absorbs an addend and a
    /// message word, the diagonal word is xored and rotated, the column word
    /// absorbs it, and the fourth word is xored and rotated in turn.
    #[verifier::rlimit(100)]
    #[verifier::spinoff_prover]
    fn mix_stage(&self, cs: &mut Composer, a: usize, add_b: usize, xor_b: usize, d: usize,
        c: usize, m: usize, rd: i32, rb: i32) -> (out: (usize, usize, usize, usize))
        requires
            old(cs).wf(),
            self.wf(),
            a < old(cs).n(),
            add_b < old(cs).n(),
            xor_b < old(cs).n(),
            d < old(cs).n(),
            c < old(cs).n(),
            m < old(cs).n(),
            rd == -16 || rd == -8,
            rb == -12 || rb == -7,
        ensures
            final(cs).wf(),
            final(cs).extends(*old(cs)),
            forall|i: int| 0 <= i < old(cs).n()
                ==> #[trigger] final(cs).values@[i] == old(cs).values@[i],
            final(cs).publics@ == old(cs).publics@,
            out.0 < final(cs).n(),
            out.1 < final(cs).n(),
            out.2 < final(cs).n(),
            out.3 < final(cs).n(),
            final(cs).v(out.0 as int) == fadd(fadd(old(cs).v(a as int),
                old(cs).v(add_b as int)), old(cs).v(m as int)),
            final(cs).v(out.3 as int) == fmulc(pow2((256 + rd) as nat) as int,
                fxor(old(cs).v(d as int), final(cs).v(out.0 as int))),
            final(cs).v(out.2 as int) == fadd(old(cs).v(c as int),
                final(cs).v(out.3 as int)),
            final(cs).v(out.1 as int) == fmulc(pow2((256 + rb) as nat) as int,
                fxor(old(cs).v(xor_b as int), final(cs).v(out.2 as int))),
            old(cs).satisfied() ==> final(cs).satisfied(),
    {
        let a1 = cs.add_gate(a, add_b);
        let a2 = cs.add_gate(a1, m);
        let dx = self.xor(cs, d, a2);
        let d2 = self.rotate(cs, dx, rd);
        let c2 = cs.add_gate(c, d2);
        let bx = self.xor(cs, xor_b, c2);
        let b2 = self.rotate(cs, bx, rb);
        (a2, b2, c2, d2)
    }

    /// The mixing function: two add-xor-rotate stages over the state and one
    /// message pair.
    #[verifier::rlimit(100)]
    #[verifier::spinoff_prover]
    pub fn g(&self, cs: &mut Composer, state: &Vec<usize>, mx: usize, my: usize)
        -> (out: Vec<usize>)
        requires
            old(cs).wf(),
            self.wf(),
            state@.len() == 8,
            forall|i: int| 0 <= i < 8 ==> (#[trigger] state@[i]) < old(cs).n(),
            mx < old(cs).n(),
            my < old(cs).n(),
        ensures
            final(cs).wf(),
            final(cs).extends(*old(cs)),
            forall|i: int| 0 <= i < old(cs).n()
                ==> #[trigger] final(cs).values@[i] == old(cs).values@[i],
            final(cs).publics@ == old(cs).publics@,
            out@.len() == 8,
            forall|i: int| 0 <= i < 8 ==> (#[trigger] out@[i]) < final(cs).n(),
            Seq::new(8, |i: int| final(cs).v(out@[i] as int))
                =~= g_spec(Seq::new(8, |i: int| old(cs).v(state@[i] as int)),
                    old(cs).v(mx as int), old(cs).v(my as int)),
            old(cs).satisfied() ==> final(cs).satisfied(),
    {
        let (a1, b1, c1, d1) = self.mix_stage(cs, state[0], state[4], state[1], state[3],
            state[2], mx, -16, -12);
        let (a2, b2, c2, d2) = self.mix_stage(cs, a1, b1, b1, d1, c1, my, -8, -7);
        let mut out: Vec<usize> = Vec::new();
        out.push(a2);
        out.push(b2);
        out.push(c2);
        out.push(d2);
        out.push(state[4]);
        out.push(state[5]);
        out.push(state[6]);
        out.push(state[7]);
        out
    }

    /// One rotate-and-shift mixing sub-function: the xor of two rotations
    /// and one shift of a single earlier word.
    #[verifier::rlimit(100)]
    #[verifier::spinoff_prover]
    fn mix_word(&self, cs: &mut Composer, w: usize, r1: i32, r2: i32, sh: u32) -> (out: usize)
        requires
            old(cs).wf(),
            self.wf(),
            w < old(cs).n(),
            r1 == -7 || r1 == -17,
            r2 == -18 || r2 == -19,
            sh == 3 || sh == 10,
        ensures
            final(cs).wf(),
            final(cs).extends(*old(cs)),
            forall|i: int| 0 <= i < old(cs).n()
                ==> #[trigger] final(cs).values@[i] == old(cs).values@[i],
            final(cs).publics@ == old(cs).publics@,
            final(cs).gates@.len() == old(cs).gates@.len() + 9,
            final(cs).n() == old(cs).n() + 9,
            out < final(cs).n(),
            final(cs).v(out as int) == fxor(fxor(
                fmulc(pow2((256 + r1) as nat) as int, old(cs).v(w as int)),
                fmulc(pow2((256 + r2) as nat) as int, old(cs).v(w as int))),
                fmulc(if sh == 3 { self.config.shr3.as_int() } else {
                    self.config.shr10.as_int()
                }, old(cs).v(w as int))),
            old(cs).satisfied() ==> final(cs).satisfied(),
    {
        let ra = self.rotate(cs, w, r1);
        let rb = self.rotate(cs, w, r2);
        let x = self.xor(cs, ra, rb);
        let shw = self.shift_right(cs, w, sh);
        self.xor(cs, x, shw)
    }

    /// One derived word of the message schedule: the two rotate-and-shift
    /// mixing sub-functions applied to earlier words, folded in with two
    /// additions.
    #[verifier::rlimit(100)]
    #[verifier::spinoff_prover]
    fn schedule_word(&self, cs: &mut Composer, w16: usize, w15: usize, w7: usize, w2: usize)
        -> (nw: usize)
        requires
            old(cs).wf(),
            self.wf(),
            w16 < old(cs).n(),
            w15 < old(cs).n(),
            w7 < old(cs).n(),
            w2 < old(cs).n(),
        ensures
            final(cs).wf(),
            final(cs).extends(*old(cs)),
            forall|i: int| 0 <= i < old(cs).n()
                ==> #[trigger] final(cs).values@[i] == old(cs).values@[i],
            final(cs).publics@ == old(cs).publics@,
            final(cs).gates@.len() == old(cs).gates@.len() + 21,
            final(cs).n() == old(cs).n() + 21,
            nw < final(cs).n(),
            final(cs).v(nw as int) == self.sched_word_spec(old(cs).v(w16 as int),
                old(cs).v(w15 as int), old(cs).v(w7 as int), old(cs).v(w2 as int)),
            old(cs).satisfied() ==> final(cs).satisfied(),
    {
        let s0 = self.mix_word(cs, w15, -7, -18, 3);
        let s1 = self.mix_word(cs, w2, -17, -19, 10);
        let sum = cs.add_gate(w16, s0);
        let nw = cs.add_gate(sum, w7);
        cs.add_gate(nw, s1)
    }

    /// The message-schedule gadget: the first sixteen words are the message
    /// block; forty-eight further words are derived through the two
    /// rotate-and-shift mixing sub-functions, and the first sixteen words
    /// are handed back for the rounds.
    #[verifier::loop_isolation(false)]
    #[verifier::rlimit(100)]
    #[verifier::spinoff_prover]
    pub fn message_schedule(&self, cs: &mut Composer, message_block: &Vec<usize>)
        -> (out: Vec<usize>)
        requires
            old(cs).wf(),
            self.wf(),
            message_block@.len() == 16,
            forall|i: int| 0 <= i < 16 ==> (#[trigger] message_block@[i]) < old(cs).n(),
        ensures
            final(cs).wf(),
            final(cs).extends(*old(cs)),
            forall|i: int| 0 <= i < old(cs).n()
                ==> #[trigger] final(cs).values@[i] == old(cs).values@[i],
            final(cs).publics@ == old(cs).publics@,
            final(cs).gates@.len() == old(cs).gates@.len() + 1008,
            final(cs).n() == old(cs).n() + 1008,
            out@ == message_block@,
            old(cs).satisfied() ==> final(cs).satisfied(),
    {
        let ghost c0 = *cs;
        let mut schedule: Vec<usize> = Vec::new();
        for i in 0..16usize
            invariant
                schedule@.len() == i,
                forall|j: int| 0 <= j < i ==> (#[trigger] schedule@[j]) == message_block@[j],
        {
            schedule.push(message_block[i]);
        }
        for i in 16..64usize
            invariant
                schedule@.len() == i,
                cs.wf(),
                cs.extends(c0),
                cs.publics@ == c0.publics@,
                forall|j: int| 0 <= j < 16 ==> (#[trigger] schedule@[j]) == message_block@[j],
                forall|j: int| 0 <= j < i ==> (#[trigger] schedule@[j]) < cs.n(),
                cs.gates@.len() == c0.gates@.len() + 21 * (i - 16),
                cs.n() == c0.n() + 21 * (i - 16),
                c0.satisfied() ==> cs.satisfied(),
                forall|j: int| 0 <= j < c0.n()
                    ==> #[trigger] cs.values@[j] == c0.values@[j],
        {
            let nw = self.schedule_word(cs, schedule[i - 16], schedule[i - 15],
                schedule[i - 7], schedule[i - 2]);
            schedule.push(nw);
        }
        let mut out: Vec<usize> = Vec::new();
        for i in 0..16usize
            invariant
                out@.len() == i,
                forall|j: int| 0 <= j < i ==> (#[trigger] out@[j]) == schedule@[j],
        {
            out.push(schedule[i]);
        }
        proof {
            assert(out@ =~= message_block@);
        }
        out
    }

    /// The compression function: run the message schedule, apply the mixing
    /// function eighty times with the table-driven message pairs, then add
    /// the initial state back in.
    #[verifier::loop_isolation(false)]
    #[verifier::rlimit(100)]
    pub fn compression_function(&self, cs: &mut Composer, state: &Vec<usize>,
        message_block: &Vec<usize>) -> (out: Vec<usize>)
        requires
            old(cs).wf(),
            self.wf(),
            state@.len() == 8,
            forall|i: int| 0 <= i < 8 ==> (#[trigger] state@[i]) < old(cs).n(),
            message_block@.len() == 16,
            forall|i: int| 0 <= i < 16 ==> (#[trigger] message_block@[i]) < old(cs).n(),
        ensures
            final(cs).wf(),
            final(cs).extends(*old(cs)),
            final(cs).publics@ == old(cs).publics@,
            out@.len() == 8,
            forall|i: int| 0 <= i < 8 ==> (#[trigger] out@[i]) < final(cs).n(),
            Seq::new(8, |i: int| final(cs).v(out@[i] as int))
                =~= compress_spec(Seq::new(8, |i: int| old(cs).v(state@[i] as int)),
                    Seq::new(16, |i: int| old(cs).v(message_block@[i] as int))),
            old(cs).satisfied() ==> final(cs).satisfied(),
    {
        let ghost c0 = *cs;
        let ghost st0 = Seq::new(8, |i: int| c0.v(state@[i] as int));
        let ghost m0 = Seq::new(16, |i: int| c0.v(message_block@[i] as int));
        let schedule = self.message_schedule(cs, message_block);
        let ghost c1 = *cs;
        let mut current: Vec<usize> = Vec::new();
        for i in 0..8usize
            invariant
                current@.len() == i,
                forall|j: int| 0 <= j < i ==> (#[trigger] current@[j]) == state@[j],
        {
            current.push(state[i]);
        }
        proof {
            assert(Seq::new(8, |i: int| cs.v(current@[i] as int))
                =~= round_states(st0, m0, 0));
        }
        for k in 0..80usize
            invariant
                cs.wf(),
                cs.extends(c0),
                cs.publics@ == c0.publics@,
                current@.len() == 8,
                forall|j: int| 0 <= j < 8 ==> (#[trigger] current@[j]) < cs.n(),
                forall|j: int| 0 <= j < 16 ==> (#[trigger] schedule@[j]) < cs.n(),
                forall|j: int| 0 <= j < 8 ==> (#[trigger] state@[j]) < cs.n(),
                schedule@ == message_block@,
                forall|j: int| 0 <= j < c0.n()
                    ==> #[trigger] cs.values@[j] == c0.values@[j],
                Seq::new(8, |j: int| cs.v(current@[j] as int))
                    =~= round_states(st0, m0, k as int),
                c0.satisfied() ==> cs.satisfied(),
        {
            let round = k / 8;
            let g_index = k % 8;
            let idx = sigma_at(round, 2 * g_index);
            let idx1 = sigma_at(round, 2 * g_index + 1);
            let ghost prev = *cs;
            let ghost cur_vals = Seq::new(8, |j: int| prev.v(current@[j] as int));
            let next = self.g(cs, &current, schedule[idx], schedule[idx1]);
            proof {
                assert(prev.v(schedule@[idx as int] as int) == m0[sigma_spec(k as int / 8,
                    2 * (k as int % 8))]);
                assert(prev.v(schedule@[idx1 as int] as int) == m0[sigma_spec(k as int / 8,
                    2 * (k as int % 8) + 1)]);
                assert(Seq::new(8, |j: int| cs.v(next@[j] as int))
                    =~= g_spec(cur_vals, prev.v(schedule@[idx as int] as int),
                        prev.v(schedule@[idx1 as int] as int)));
                assert((k + 1int - 1) / 8 == k as int / 8);
                assert((k + 1int - 1) % 8 == k as int % 8);
                assert(Seq::new(8, |j: int| cs.v(next@[j] as int))
                    =~= round_states(st0, m0, k + 1));
            }
            current = next;
        }
        let mut out: Vec<usize> = Vec::new();
        let ghost cpre = *cs;
        for i in 0..8usize
            invariant
                cs.wf(),
                cs.extends(cpre),
                cs.publics@ == cpre.publics@,
                out@.len() == i,
                forall|j: int| 0 <= j < 8 ==> (#[trigger] current@[j]) < cs.n(),
                forall|j: int| 0 <= j < 8 ==> (#[trigger] state@[j]) < cs.n(),
                forall|j: int| 0 <= j < i ==> (#[trigger] out@[j]) < cs.n(),
                forall|j: int| 0 <= j < cpre.n()
                    ==> #[trigger] cs.values@[j] == cpre.values@[j],
                forall|j: int| 0 <= j < i ==> cs.v((#[trigger] out@[j]) as int)
                    == fadd(st0[j], round_states(st0, m0, 80)[j]),
                cpre.satisfied() ==> cs.satisfied(),
        {
            let s = cs.add_gate(state[i], current[i]);
            out.push(s);
        }
        proof {
            lemma_extends_trans(c0, cpre, *cs);
            assert(Seq::new(8, |i: int| cs.v(out@[i] as int))
                =~= compress_spec(st0, m0));
        }
        out
    }
}

/// Look up one entry of the message-permutation table.
pub fn sigma_at(r: usize, i: usize) -> (k: usize)
    requires
        r < 10,
        i < 16,
    ensures
        k == sigma_spec(r as int, i as int),
        k < 16,
{
    let row: Vec<usize> = if r == 0 {
        vec![0, 1, 2, 3, 4, 5, 6, 7, 8, 9, 10, 11, 12, 13, 14, 15]
    } else if r == 1 {
        vec![14, 10, 4, 8, 9, 15, 13, 6, 1, 12, 0, 2, 11, 7, 5, 3]
    } else if r == 2 {
        vec![11, 8, 12, 0, 5, 2, 15, 13, 10, 14, 3, 6, 7, 1, 9, 4]
    } else if r == 3 {
        vec![7, 9, 3, 1, 13, 12, 11, 14, 2, 6, 5, 10, 4, 0, 15, 8]
    } else if r == 4 {
        vec![9, 0, 5, 7, 2, 4, 10, 15, 14, 1, 11, 12, 6, 8, 3, 13]
    } else if r == 5 {
        vec![2, 12, 6, 10, 0, 11, 8, 3, 4, 13, 7, 5, 15, 14, 1, 9]
    } else if r == 6 {
        vec![12, 5, 1, 15, 14, 13, 4, 10, 0, 7, 6, 3, 9, 2, 8, 11]
    } else if r == 7 {
        vec![13, 11, 7, 14, 12, 1, 3, 9, 5, 0, 15, 4, 8, 6, 2, 10]
    } else if r == 8 {
        vec![6, 15, 14, 9, 11, 3, 0, 8, 12, 2, 13, 7, 1, 4, 10, 5]
    } else {
        vec![10, 2, 8, 4, 7, 6, 1, 5, 15, 11, 9, 14, 3, 12, 13, 0]
    };
    proof {
        assert(row@.map_values(|x: usize| x as int) =~= seq![
            seq![0int, 1, 2, 3, 4, 5, 6, 7, 8, 9, 10, 11, 12, 13, 14, 15],
            seq![14int, 10, 4, 8, 9, 15, 13, 6, 1, 12, 0, 2, 11, 7, 5, 3],
            seq![11int, 8, 12, 0, 5, 2, 15, 13, 10, 14, 3, 6, 7, 1, 9, 4],
            seq![7int, 9, 3, 1, 13, 12, 11, 14, 2, 6, 5, 10, 4, 0, 15, 8],
            seq![9int, 0, 5, 7, 2, 4, 10, 15, 14, 1, 11, 12, 6, 8, 3, 13],
            seq![2int, 12, 6, 10, 0, 11, 8, 3, 4, 13, 7, 5, 15, 14, 1, 9],
            seq![12int, 5, 1, 15, 14, 13, 4, 10, 0, 7, 6, 3, 9, 2, 8, 11],
            seq![13int, 11, 7, 14, 12, 1, 3, 9, 5, 0, 15, 4, 8, 6, 2, 10],
            seq![6int, 15, 14, 9, 11, 3, 0, 8, 12, 2, 13, 7, 1, 4, 10, 5],
            seq![10int, 2, 8, 4, 7, 6, 1, 5, 15, 11, 9, 14, 3, 12, 13, 0],
        ][r as int]);
    }
    row[i]
}

/// The native mixing function: the same field-arithmetic computation the
/// gadget wires, evaluated directly.
pub fn g_native(config: &Blake2sConfig, s: &Vec<Felt>, mx: &Felt, my: &Felt) -> (out: Vec<Felt>)
    requires
        config.wf(),
        s@.len() == 8,
        forall|i: int| 0 <= i < 8 ==> (#[trigger] s@[i]).wf(),
        mx.wf(),
        my.wf(),
    ensures
        out@.len() == 8,
        forall|i: int| 0 <= i < 8 ==> (#[trigger] out@[i]).wf(),
        Seq::new(8, |i: int| out@[i].as_int())
            =~= g_spec(Seq::new(8, |i: int| s@[i].as_int()), mx.as_int(), my.as_int()),
{
    let a = fp_add(&fp_add(&s[0], &s[4]), mx);
    let d = fxor_native(&s[3], &a);
    let d = fp_mul(&config.rot16, &d);
    let c = fp_add(&s[2], &d);
    let b = fxor_native(&s[1], &c);
    let b = fp_mul(&config.rot12, &b);
    let a2 = fp_add(&fp_add(&a, &b), my);
    let d2 = fxor_native(&d, &a2);
    let d2 = fp_mul(&config.rot8, &d2);
    let c2 = fp_add(&c, &d2);
    let b2 = fxor_native(&b, &c2);
    let b2 = fp_mul(&config.rot7, &b2);
    let mut out: Vec<Felt> = Vec::new();
    out.push(a2);
    out.push(b2);
    out.push(c2);
    out.push(d2);
    out.push(s[4].dup());
    out.push(s[5].dup());
    out.push(s[6].dup());
    out.push(s[7].dup());
    out
}

/// The native field "xor": `x + y - x*y`, reduced.
pub fn fxor_native(x: &Felt, y: &Felt) -> (r: Felt)
    requires
        x.wf(),
        y.wf(),
    ensures
        r.wf(),
        r.as_int() == fxor(x.as_int(), y.as_int()),
{
    let s = fp_add(x, y);
    let t = fp_mul(x, y);
    let r = fp_sub(&s, &t);
    proof {
        lemma_sub_mod_noop(x.as_int() + y.as_int(), x.as_int() * y.as_int(), p());
    }
    r
}

/// The native compression function: extensionally equal to the circuit
/// gadget, word for word, on every state and message block.
#[verifier::loop_isolation(false)]
#[verifier::rlimit(100)]
pub fn compression_native(config: &Blake2sConfig, state: &Vec<Felt>, message_block: &Vec<Felt>)
    -> (out: Vec<Felt>)
    requires
        config.wf(),
        state@.len() == 8,
        forall|i: int| 0 <= i < 8 ==> (#[trigger] state@[i]).wf(),
        message_block@.len() == 16,
        forall|i: int| 0 <= i < 16 ==> (#[trigger] message_block@[i]).wf(),
    ensures
        out@.len() == 8,
        forall|i: int| 0 <= i < 8 ==> (#[trigger] out@[i]).wf(),
        Seq::new(8, |i: int| out@[i].as_int())
            =~= compress_spec(Seq::new(8, |i: int| state@[i].as_int()),
                Seq::new(16, |i: int| message_block@[i].as_int())),
{
    let ghost st0 = Seq::new(8, |i: int| state@[i].as_int());
    let ghost m0 = Seq::new(16, |i: int| message_block@[i].as_int());
    let mut current: Vec<Felt> = Vec::new();
    for i in 0..8usize
        invariant
            current@.len() == i,
            forall|j: int| 0 <= j < i ==> (#[trigger] current@[j]).wf(),
            forall|j: int| 0 <= j < i ==> current@[j]@ == state@[j]@,
    {
        current.push(state[i].dup());
    }
    proof {
        assert(Seq::new(8, |j: int| current@[j].as_int()) =~= round_states(st0, m0, 0));
    }
    for k in 0..80usize
        invariant
            current@.len() == 8,
            forall|j: int| 0 <= j < 8 ==> (#[trigger] current@[j]).wf(),
            Seq::new(8, |j: int| current@[j].as_int()) =~= round_states(st0, m0, k as int),
    {
        let round = k / 8;
        let g_index = k % 8;
        let idx = sigma_at(round, 2 * g_index);
        let idx1 = sigma_at(round, 2 * g_index + 1);
        let ghost cur_vals = Seq::new(8, |j: int| current@[j].as_int());
        let next = g_native(config, &current, &message_block[idx], &message_block[idx1]);
        proof {
            assert(message_block@[idx as int].as_int() == m0[sigma_spec(k as int / 8,
                2 * (k as int % 8))]);
            assert(message_block@[idx1 as int].as_int() == m0[sigma_spec(k as int / 8,
                2 * (k as int % 8) + 1)]);
            assert((k + 1int - 1) / 8 == k as int / 8);
            assert((k + 1int - 1) % 8 == k as int % 8);
            assert(Seq::new(8, |j: int| next@[j].as_int())
                =~= round_states(st0, m0, k + 1));
        }
        current = next;
    }
    let mut out: Vec<Felt> = Vec::new();
    for i in 0..8usize
        invariant
            out@.len() == i,
            forall|j: int| 0 <= j < i ==> (#[trigger] out@[j]).wf(),
            forall|j: int| 0 <= j < i ==> out@[j].as_int()
                == fadd(st0[j], round_states(st0, m0, 80)[j]),
    {
        out.push(fp_add(&state[i], &current[i]));
    }
    proof {
        assert(Seq::new(8, |i: int| out@[i].as_int()) =~= compress_spec(st0, m0));
    }
    out
}

} // verus!
