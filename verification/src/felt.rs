//! Scalar-field elements, held as their canonical 32-byte little-endian
//! representation, with arithmetic delegated to the `pasta_curves`
//! implementation of the pallas base field.

use vstd::prelude::*;
use vstd::arithmetic::power2::{
    pow2, lemma2_to64, lemma2_to64_rest, lemma_pow2_adds, lemma_pow2_pos,
    lemma_pow2_strictly_increases,
};
use vstd::arithmetic::div_mod::{lemma_fundamental_div_mod, lemma_fundamental_div_mod_converse};
use ff::{Field, PrimeField};
use pasta_curves::Fp;

verus! {

/// The prime modulus of the field: every `Felt` stands for a residue below it.
pub open spec fn p() -> int {
    0x40000000000000000000000000000000224698fc094cf91b992d30ed00000001int
}

/// The integer a little-endian byte string stands for.
pub open spec fn le_int(s: Seq<u8>) -> int
    decreases s.len(),
{
    if s.len() == 0 {
        0
    } else {
        s[0] + 256 * le_int(s.skip(1))
    }
}

pub proof fn lemma_le_int_nonneg(s: Seq<u8>)
    ensures
        0 <= le_int(s),
    decreases s.len(),
{
    if s.len() > 0 {
        lemma_le_int_nonneg(s.skip(1));
    }
}

pub proof fn lemma_le_int_bound(s: Seq<u8>)
    ensures
        le_int(s) < pow2((8 * s.len()) as nat),
    decreases s.len(),
{
    if s.len() == 0 {
        lemma2_to64();
    } else {
        lemma_le_int_bound(s.skip(1));
        lemma_le_int_nonneg(s.skip(1));
        lemma_pow2_adds(8, (8 * (s.len() - 1)) as nat);
        lemma2_to64();
    }
}

pub proof fn lemma_le_int_app(s: Seq<u8>, t: Seq<u8>)
    ensures
        le_int(s + t) == le_int(s) + pow2((8 * s.len()) as nat) * le_int(t),
    decreases s.len(),
{
    if s.len() == 0 {
        assert(s + t =~= t);
        lemma2_to64();
    } else {
        assert((s + t).skip(1) =~= s.skip(1) + t);
        lemma_le_int_app(s.skip(1), t);
        lemma_pow2_adds(8, (8 * (s.len() - 1)) as nat);
        lemma2_to64();
        let pw = pow2((8 * (s.len() - 1)) as nat);
        let lt = le_int(t);
        let ls = le_int(s.skip(1));
        assert(256 * (ls + pw * lt) == 256 * ls + (256 * pw) * lt) by (nonlinear_arith);
        assert(pow2((8 * s.len()) as nat) == 256 * pw);
    }
}

pub proof fn lemma_le_int_push(s: Seq<u8>, b: u8)
    ensures
        le_int(s.push(b)) == le_int(s) + pow2((8 * s.len()) as nat) * b,
{
    assert(s.push(b) =~= s + seq![b]);
    lemma_le_int_app(s, seq![b]);
    assert(le_int(seq![b]) == b + 256 * le_int(seq![b].skip(1)));
    assert(seq![b].skip(1) =~= Seq::<u8>::empty());
}

/// Two byte strings of one length that stand for the same integer are equal.
pub proof fn lemma_le_int_injective(s: Seq<u8>, t: Seq<u8>)
    requires
        s.len() == t.len(),
        le_int(s) == le_int(t),
    ensures
        s == t,
    decreases s.len(),
{
    if s.len() > 0 {
        lemma_le_int_nonneg(s.skip(1));
        lemma_le_int_nonneg(t.skip(1));
        lemma_fundamental_div_mod_converse(le_int(s), 256, le_int(s.skip(1)), s[0] as int);
        lemma_fundamental_div_mod_converse(le_int(t), 256, le_int(t.skip(1)), t[0] as int);
        assert(s[0] == le_int(s) % 256 && t[0] == le_int(t) % 256);
        assert(le_int(s.skip(1)) == le_int(s) / 256 && le_int(t.skip(1)) == le_int(t) / 256);
        lemma_le_int_injective(s.skip(1), t.skip(1));
        assert(s =~= t) by {
            assert forall|i: int| 0 <= i < s.len() implies s[i] == t[i] by {
                if i > 0 {
                    assert(s[i] == s.skip(1)[i - 1]);
                    assert(t[i] == t.skip(1)[i - 1]);
                }
            }
        }
    } else {
        assert(s =~= t);
    }
}

/// A residue already below the modulus is its own remainder.
pub proof fn lemma_mod_small(x: int)
    requires
        0 <= x < p(),
    ensures
        x % p() == x,
{
    lemma_fundamental_div_mod_converse(x, p(), 0, x);
}

/// A value one modulus too high reduces by a single subtraction.
pub proof fn lemma_mod_shift(x: int)
    requires
        p() <= x < 2 * p(),
    ensures
        x % p() == x - p(),
{
    lemma_fundamental_div_mod_converse(x, p(), 1, x - p());
}

/// The remainder of a difference of two reduced residues.
pub proof fn lemma_mod_diff(x: int, y: int)
    requires
        0 <= x < p(),
        0 <= y < p(),
    ensures
        (x - y) % p() == if x >= y { x - y } else { x - y + p() },
{
    if x >= y {
        lemma_fundamental_div_mod_converse(x - y, p(), 0, x - y);
    } else {
        lemma_fundamental_div_mod_converse(x - y, p(), -1, x - y + p());
    }
}

/// An all-zero byte string stands for zero.
pub proof fn lemma_le_int_zero(s: Seq<u8>)
    requires
        forall|i: int| 0 <= i < s.len() ==> s[i] == 0,
    ensures
        le_int(s) == 0,
    decreases s.len(),
{
    if s.len() > 0 {
        lemma_le_int_zero(s.skip(1));
    }
}

/// Each byte gives a lower bound on the value of the whole string.
pub proof fn lemma_le_int_lower(s: Seq<u8>, j: int)
    requires
        0 <= j < s.len(),
    ensures
        le_int(s) >= pow2((8 * j) as nat) * s[j],
    decreases j,
{
    lemma2_to64();
    if j == 0 {
        lemma_le_int_nonneg(s.skip(1));
        assert(pow2((8 * j) as nat) == 1);
        assert(le_int(s) >= s[0]);
        assert(pow2((8 * j) as nat) * s[j] == s[j]);
    } else {
        lemma_le_int_lower(s.skip(1), j - 1);
        lemma_pow2_adds(8, (8 * (j - 1)) as nat);
        let pw = pow2((8 * (j - 1)) as nat);
        let bj = s[j] as int;
        assert(s.skip(1)[j - 1] == s[j]);
        assert(pow2((8 * j) as nat) == 256 * pw);
        assert(256 * (pw * bj) == (256 * pw) * bj) by (nonlinear_arith);
        assert(le_int(s.skip(1)) >= pw * bj);
        assert(256 * le_int(s.skip(1)) >= 256 * (pw * bj));
        assert(le_int(s) >= 256 * le_int(s.skip(1)));
        assert(le_int(s) >= (256 * pw) * bj);
        assert(pow2((8 * j) as nat) * bj == (256 * pw) * bj);
    }
}

/// The canonical 32-byte string standing for a residue.
pub open spec fn canon_bytes(x: int) -> Seq<u8> {
    choose|s: Seq<u8>| s.len() == 32 && le_int(s) == x
}

/// A scalar-field element: 32 little-endian bytes holding a value below `p()`.
pub struct Felt {
    pub bytes: Vec<u8>,
}

impl View for Felt {
    type V = Seq<u8>;

    open spec fn view(&self) -> Seq<u8> {
        self.bytes@
    }
}

impl Felt {
    /// The canonical-representation invariant.
    pub open spec fn wf(self) -> bool {
        self.bytes@.len() == 32 && 0 <= le_int(self.bytes@) < p()
    }

    /// The residue this element stands for.
    pub open spec fn as_int(self) -> int {
        le_int(self.bytes@)
    }

    /// The zero element.
    pub fn zero() -> (r: Felt)
        ensures
            r.wf(),
            r.as_int() == 0,
    {
        let mut bytes: Vec<u8> = Vec::new();
        for i in 0..32usize
            invariant
                bytes@.len() == i,
                le_int(bytes@) == 0,
        {
            proof {
                lemma_le_int_push(bytes@, 0);
            }
            bytes.push(0);
        }
        Felt { bytes }
    }

    /// The element standing for a 64-bit integer.
    pub fn from_u64(q: u64) -> (r: Felt)
        ensures
            r.wf(),
            r.as_int() == q as int,
    {
        let mut bytes: Vec<u8> = Vec::new();
        let mut rem: u64 = q;
        proof {
            lemma2_to64();
        }
        for i in 0..8usize
            invariant
                bytes@.len() == i,
                0 <= le_int(bytes@),
                le_int(bytes@) + (rem as int) * pow2((8 * i) as nat) == q as int,
        {
            let b: u8 = (rem & 0xff) as u8;
            proof {
                lemma_le_int_push(bytes@, b);
                assert(rem & 0xff < 256) by (bit_vector);
                assert(rem == (rem & 0xff) + 256 * (rem >> 8)) by (bit_vector);
                lemma_pow2_adds((8 * i) as nat, 8);
                lemma2_to64();
                lemma_le_int_nonneg(bytes@.push(b));
                let pw = pow2((8 * i) as nat);
                let bb = b as int;
                let r2 = (rem >> 8) as int;
                assert((bb + 256 * r2) * pw == bb * pw + r2 * (256 * pw)) by (nonlinear_arith);
                assert(pw * bb == bb * pw) by (nonlinear_arith);
                assert(pow2((8 * (i + 1)) as nat) == 256 * pw);
            }
            bytes.push(b);
            rem = rem >> 8;
        }
        proof {
            lemma2_to64();
            lemma2_to64_rest();
            assert(q < pow2(64)) by {
                assert(q <= u64::MAX);
            }
            assert(rem == 0) by {
                if rem >= 1 {
                    assert((rem as int) * pow2(64) >= pow2(64)) by (nonlinear_arith)
                        requires rem >= 1;
                }
            }
        }
        let mut out = bytes;
        for i in 8..32usize
            invariant
                out@.len() == i,
                le_int(out@) == q as int,
        {
            proof {
                lemma_le_int_push(out@, 0);
            }
            out.push(0);
        }
        proof {
            lemma2_to64_rest();
            lemma_pow2_below_p(64);
        }
        Felt { bytes: out }
    }

    /// The element standing for a power of two, `2^k`.
    pub fn two_pow(k: usize) -> (r: Felt)
        requires
            k <= 253,
        ensures
            r.wf(),
            r.as_int() == pow2(k as nat),
    {
        let mut bytes: Vec<u8> = Vec::new();
        let hi: usize = k / 8;
        let lo: usize = k % 8;
        let b: u8 = 1u8 << (lo as u8);
        for i in 0..32usize
            invariant
                bytes@.len() == i,
                hi == k / 8,
                lo == k % 8,
                b == 1u8 << (lo as u8),
                k <= 253,
                le_int(bytes@) == if i <= hi { 0 } else { (b as int) * pow2((8 * hi) as nat) },
        {
            let nb: u8 = if i == hi { b } else { 0 };
            proof {
                lemma_le_int_push(bytes@, nb);
                let pw = pow2((8 * i) as nat);
                assert(pw * (nb as int) == (nb as int) * pw) by (nonlinear_arith);
            }
            bytes.push(nb);
        }
        proof {
            let lon = lo as nat;
            assert(b == pow2(lon)) by {
                lemma2_to64();
                let lob = lo as u8;
                assert(lob < 8 ==> (1u8 << lob) ==
                    (if lob == 0 { 1u8 } else if lob == 1 { 2u8 } else if lob == 2 { 4u8 }
                     else if lob == 3 { 8u8 } else if lob == 4 { 16u8 } else if lob == 5 { 32u8 }
                     else if lob == 6 { 64u8 } else { 128u8 })) by (bit_vector);
            }
            lemma_fundamental_div_mod(k as int, 8);
            lemma_pow2_adds((8 * hi) as nat, lon);
            assert(8 * hi + lon == k as nat);
            assert(pow2(((8 * hi) as nat) + lon) == pow2(k as nat));
            let p1 = pow2((8 * hi) as nat);
            let p2 = pow2(lon);
            assert(p1 * p2 == p2 * p1) by (nonlinear_arith);
            assert((pow2(lon) as int) * pow2((8 * hi) as nat) == pow2(k as nat));
            lemma_pow2_below_p(k as nat);
        }
        Felt { bytes }
    }

    /// A copy of this element.
    pub fn dup(&self) -> (r: Felt)
        ensures
            r@ == self@,
    {
        let mut bytes: Vec<u8> = Vec::new();
        let n = self.bytes.len();
        for i in 0..n
            invariant
                n == self.bytes@.len(),
                bytes@ =~= self.bytes@.subrange(0, i as int),
        {
            bytes.push(self.bytes[i]);
        }
        proof {
            assert(bytes@ =~= self.bytes@);
        }
        Felt { bytes }
    }

    /// Byte-for-byte equality, which by canonicity is equality of elements.
    pub fn eq_felt(&self, other: &Felt) -> (r: bool)
        ensures
            r <==> self@ == other@,
    {
        if self.bytes.len() != other.bytes.len() {
            proof {
                assert(self@.len() != other@.len());
            }
            return false;
        }
        let n = self.bytes.len();
        for i in 0..n
            invariant
                n == self.bytes@.len() == other.bytes@.len(),
                self.bytes@.subrange(0, i as int) =~= other.bytes@.subrange(0, i as int),
        {
            if self.bytes[i] != other.bytes[i] {
                proof {
                    assert(self@[i as int] != other@[i as int]);
                }
                return false;
            }
            proof {
                assert(self.bytes@.subrange(0, i + 1) =~=
                    other.bytes@.subrange(0, i + 1));
            }
        }
        proof {
            assert(self@ =~= self.bytes@.subrange(0, n as int));
            assert(other@ =~= other.bytes@.subrange(0, n as int));
        }
        true
    }
}

/// Byte-for-byte equality of two byte vectors.
pub fn bytes_eq(a: &Vec<u8>, b: &Vec<u8>) -> (r: bool)
    ensures
        r <==> a@ == b@,
{
    if a.len() != b.len() {
        proof {
            assert(a@.len() != b@.len());
        }
        return false;
    }
    let n = a.len();
    for i in 0..n
        invariant
            n == a@.len() == b@.len(),
            a@.subrange(0, i as int) =~= b@.subrange(0, i as int),
    {
        if a[i] != b[i] {
            proof {
                assert(a@[i as int] != b@[i as int]);
            }
            return false;
        }
        proof {
            assert(a@.subrange(0, i + 1) =~= b@.subrange(0, i + 1));
        }
    }
    proof {
        assert(a@ =~= a@.subrange(0, n as int));
        assert(b@ =~= b@.subrange(0, n as int));
    }
    true
}

/// Append the eight little-endian bytes of a 64-bit value.
pub fn push_u64_le(bytes: &mut Vec<u8>, v: u64)
    ensures
        final(bytes)@.len() == old(bytes)@.len() + 8,
        le_int(final(bytes)@)
            == le_int(old(bytes)@) + v * pow2((8 * old(bytes)@.len()) as nat),
{
    let base = bytes.len();
    let mut rem: u64 = v;
    proof {
        lemma2_to64();
    }
    for i in 0..8usize
        invariant
            bytes@.len() == base + i,
            base == old(bytes)@.len(),
            le_int(bytes@) + (rem as int) * pow2((8 * (base + i)) as nat)
                == le_int(old(bytes)@) + (v as int) * pow2((8 * base) as nat),
    {
        let b: u8 = (rem & 0xff) as u8;
        proof {
            lemma_le_int_push(bytes@, b);
            assert(rem & 0xff < 256) by (bit_vector);
            assert(rem == (rem & 0xff) + 256 * (rem >> 8)) by (bit_vector);
            lemma_pow2_adds((8 * (base + i)) as nat, 8);
            lemma2_to64();
            let pw = pow2((8 * (base + i)) as nat);
            let bb = b as int;
            let r2 = (rem >> 8) as int;
            assert((bb + 256 * r2) * pw == bb * pw + r2 * (256 * pw)) by (nonlinear_arith);
            assert(pw * bb == bb * pw) by (nonlinear_arith);
            assert(pow2((8 * (base + i + 1)) as nat) == 256 * pw);
        }
        bytes.push(b);
        rem = rem >> 8;
    }
    proof {
        lemma2_to64();
        lemma2_to64_rest();
        assert(v < pow2(64)) by {
            assert(v <= u64::MAX);
        }
        assert(rem == 0) by {
            lemma_pow2_adds((8 * base) as nat, 64);
            let pb = pow2((8 * base) as nat);
            lemma_pow2_pos((8 * base) as nat);
            if rem >= 1 {
                assert((rem as int) * (pb * pow2(64)) >= pb * pow2(64)) by (nonlinear_arith)
                    requires rem >= 1, pb * pow2(64) > 0;
                assert((v as int) * pb <= (pow2(64) - 1) * pb) by (nonlinear_arith)
                    requires v <= pow2(64) - 1, pb > 0;
                lemma_le_int_nonneg(bytes@);
                lemma_le_int_nonneg(old(bytes)@);
                lemma_le_int_bound(old(bytes)@);
                assert(pow2(64) * pb == pb * pow2(64)) by (nonlinear_arith);
                assert(false);
            }
        }
    }
}

/// A well-formed element's bytes are the canonical bytes of its residue.
pub proof fn lemma_canon_bytes(f: Felt)
    requires
        f.wf(),
    ensures
        f@ == canon_bytes(f.as_int()),
{
    let s = choose|s: Seq<u8>| s.len() == 32 && le_int(s) == f.as_int();
    assert(f@.len() == 32 && le_int(f@) == f.as_int());
    assert(s.len() == 32 && le_int(s) == f.as_int());
    lemma_le_int_injective(s, f@);
}

/// Relies on `pasta_curves::Fp`: `from_repr` reads a canonical little-endian
/// residue, `+` is addition modulo the field's prime, and `to_repr` writes the
/// canonical 32-byte form back.
#[verifier::external_body]
pub fn fp_add(a: &Felt, b: &Felt) -> (r: Felt)
    requires
        a.wf(),
        b.wf(),
    ensures
        r.wf(),
        r.as_int() == (a.as_int() + b.as_int()) % p(),
{
    let mut ra = [0u8; 32];
    ra.copy_from_slice(&a.bytes);
    let mut rb = [0u8; 32];
    rb.copy_from_slice(&b.bytes);
    let s = Fp::from_repr(ra).unwrap() + Fp::from_repr(rb).unwrap();
    Felt { bytes: s.to_repr().to_vec() }
}

/// Relies on `pasta_curves::Fp` subtraction modulo the field's prime.
#[verifier::external_body]
pub fn fp_sub(a: &Felt, b: &Felt) -> (r: Felt)
    requires
        a.wf(),
        b.wf(),
    ensures
        r.wf(),
        r.as_int() == (a.as_int() - b.as_int()) % p(),
{
    let mut ra = [0u8; 32];
    ra.copy_from_slice(&a.bytes);
    let mut rb = [0u8; 32];
    rb.copy_from_slice(&b.bytes);
    let s = Fp::from_repr(ra).unwrap() - Fp::from_repr(rb).unwrap();
    Felt { bytes: s.to_repr().to_vec() }
}

/// Relies on `pasta_curves::Fp` multiplication modulo the field's prime.
#[verifier::external_body]
pub fn fp_mul(a: &Felt, b: &Felt) -> (r: Felt)
    requires
        a.wf(),
        b.wf(),
    ensures
        r.wf(),
        r.as_int() == (a.as_int() * b.as_int()) % p(),
{
    let mut ra = [0u8; 32];
    ra.copy_from_slice(&a.bytes);
    let mut rb = [0u8; 32];
    rb.copy_from_slice(&b.bytes);
    let s = Fp::from_repr(ra).unwrap() * Fp::from_repr(rb).unwrap();
    Felt { bytes: s.to_repr().to_vec() }
}

/// Relies on `ff::Field::invert` for `pasta_curves::Fp`: on a non-zero residue
/// it returns the multiplicative inverse modulo the field's prime.
#[verifier::external_body]
pub fn fp_invert(a: &Felt) -> (r: Felt)
    requires
        a.wf(),
        a.as_int() != 0,
    ensures
        r.wf(),
        (a.as_int() * r.as_int()) % p() == 1,
{
    let mut ra = [0u8; 32];
    ra.copy_from_slice(&a.bytes);
    let x: Fp = Fp::from_repr(ra).unwrap();
    Felt { bytes: x.invert().unwrap().to_repr().to_vec() }
}

/// Any power of two up to `2^253` lies below the modulus.
pub proof fn lemma_pow2_below_p(k: nat)
    requires
        k <= 253,
    ensures
        pow2(k) < p(),
{
    lemma2_to64();
    lemma2_to64_rest();
    lemma_pow2_adds(64, 64);
    lemma_pow2_adds(128, 64);
    lemma_pow2_adds(192, 61);
    assert(pow2(128) == 0x100000000000000000000000000000000int);
    assert(pow2(192) == 0x1000000000000000000000000000000000000000000000000int);
    assert(pow2(253) ==
        0x2000000000000000000000000000000000000000000000000000000000000000int);
    if k < 253 {
        lemma_pow2_strictly_increases(k, 253);
    }
}

} // verus!
