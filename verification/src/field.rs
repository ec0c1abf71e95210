//! The base field: integers modulo the Mersenne prime `2^31 - 1`.

use vstd::prelude::*;
use vstd::arithmetic::div_mod::{
    lemma_fundamental_div_mod, lemma_mod_add_multiples_vanish, lemma_mod_multiples_vanish,
    lemma_mul_mod_noop_left, lemma_mul_mod_noop_right, lemma_small_mod, lemma_sub_mod_noop,
};

verus! {

/// The modulus of the base field.
pub const P: u32 = 0x7fff_ffff;

/// `(a + b) mod P` on mathematical integers.
pub open spec fn fadd(a: int, b: int) -> int {
    (a + b) % (P as int)
}

/// `(a - b) mod P` on mathematical integers.
pub open spec fn fsub(a: int, b: int) -> int {
    (a - b) % (P as int)
}

/// `(a * b) mod P` on mathematical integers.
pub open spec fn fmul(a: int, b: int) -> int {
    (a * b) % (P as int)
}

/// A base-field element, kept reduced: the value is in `[0, P)`.
#[derive(Clone, Copy, PartialEq, Eq, Structural, Debug)]
pub struct M31 {
    pub v: u32,
}

impl View for M31 {
    type V = int;

    open spec fn view(&self) -> int {
        self.v as int
    }
}

/// A reduced representative of a base-field element.
pub open spec fn m31_wf(a: M31) -> bool {
    a.v < P
}

impl M31 {
    /// The element of the residue class of `v`.
    pub fn new(v: u32) -> (r: M31)
        ensures
            m31_wf(r),
            r@ == v as int % P as int,
    {
        M31 { v: v % P }
    }

    /// The additive identity.
    pub fn zero() -> (r: M31)
        ensures
            m31_wf(r),
            r@ == 0,
    {
        M31 { v: 0 }
    }

    /// The multiplicative identity.
    pub fn one() -> (r: M31)
        ensures
            m31_wf(r),
            r@ == 1,
    {
        M31 { v: 1 }
    }

    /// Field addition.
    pub fn add(self, o: M31) -> (r: M31)
        requires
            m31_wf(self),
            m31_wf(o),
        ensures
            m31_wf(r),
            r@ == fadd(self@, o@),
    {
        M31 { v: (self.v + o.v) % P }
    }

    /// Field subtraction.
    pub fn sub(self, o: M31) -> (r: M31)
        requires
            m31_wf(self),
            m31_wf(o),
        ensures
            m31_wf(r),
            r@ == fsub(self@, o@),
    {
        proof {
            lemma_mod_add_multiples_vanish(self@ - o@, P as int);
        }
        M31 { v: (self.v + (P - o.v)) % P }
    }

    /// Field negation.
    pub fn neg(self) -> (r: M31)
        requires
            m31_wf(self),
        ensures
            m31_wf(r),
            r@ == fsub(0, self@),
    {
        proof {
            lemma_mod_add_multiples_vanish(0 - self@, P as int);
        }
        M31 { v: (P - self.v) % P }
    }

    /// Field multiplication.
    pub fn mul(self, o: M31) -> (r: M31)
        requires
            m31_wf(self),
            m31_wf(o),
        ensures
            m31_wf(r),
            r@ == fmul(self@, o@),
    {
        proof {
            assert(self@ * o@ < 0x4000_0000_0000_0000) by (nonlinear_arith)
                requires
                    0 <= self@ < 0x8000_0000,
                    0 <= o@ < 0x8000_0000,
            ;
        }
        M31 { v: ((self.v as u64 * o.v as u64) % P as u64) as u32 }
    }
}

/// The modulus has no factorization into two factors of at least 2: the
/// smaller factor would be below `2^16`, and the solver refutes every such
/// product bit by bit.
#[verifier::rlimit(100)]
proof fn lemma_no_factor()
    ensures
        forall|a: u64, b: u64|
            2 <= a < 65536 && 2 <= b < 0x8000_0000 ==> #[trigger] (a * b) != 0x7fff_ffff,
{
    assert(forall|a: u64, b: u64|
        2 <= a < 65536 && 2 <= b < 0x8000_0000 ==> #[trigger] (a * b) != 0x7fff_ffff)
        by (bit_vector);
}

/// One step of the inverse computation: if `u0` and `u1` stand for `r0` and
/// `r1` (that is, `v*u` and `r` agree mod `P`), then the reduced update
/// `u0 - q*u1` stands for `r0 - q*r1`.
proof fn lemma_inverse_step(v: int, u0: int, u1: int, q: int, r0: int, r1: int, u2: int)
    requires
        0 <= v,
        0 <= u0 < P as int,
        0 <= u1 < P as int,
        0 <= q,
        (v * u0) % (P as int) == r0 % (P as int),
        (v * u1) % (P as int) == r1 % (P as int),
        u2 == (u0 + (P as int - ((q % (P as int)) * u1) % (P as int))) % (P as int),
    ensures
        (v * u2) % (P as int) == (r0 - q * r1) % (P as int),
{
    let pp = P as int;
    let t = ((q % pp) * u1) % pp;
    lemma_mul_mod_noop_right(v, u0 + pp - t, pp);
    assert((v * u2) % pp == (v * (u0 + pp - t)) % pp);
    assert(v * (u0 + pp - t) == pp * v + (v * u0 - v * t)) by (nonlinear_arith);
    lemma_mod_multiples_vanish(v, v * u0 - v * t, pp);
    assert((v * (u0 + pp - t)) % pp == (v * u0 - v * t) % pp);
    // The subtracted term stands for q * r1.
    lemma_mul_mod_noop_right(v, (q % pp) * u1, pp);
    assert((v * t) % pp == (v * ((q % pp) * u1)) % pp);
    assert(v * ((q % pp) * u1) == (v * u1) * (q % pp)) by (nonlinear_arith);
    lemma_mul_mod_noop_right(v * u1, q, pp);
    assert(((v * u1) * (q % pp)) % pp == ((v * u1) * q) % pp);
    lemma_mul_mod_noop_left(v * u1, q, pp);
    assert(((v * u1) * q) % pp == (((v * u1) % pp) * q) % pp);
    lemma_mul_mod_noop_left(r1, q, pp);
    assert(((r1 % pp) * q) % pp == (r1 * q) % pp);
    assert((v * t) % pp == (r1 * q) % pp);
    lemma_sub_mod_noop(v * u0, v * t, pp);
    assert((v * u0 - v * t) % pp == ((v * u0) % pp - (v * t) % pp) % pp);
    lemma_sub_mod_noop(r0, r1 * q, pp);
    assert(((r0 % pp) - ((r1 * q) % pp)) % pp == (r0 - r1 * q) % pp);
    assert(r0 - r1 * q == r0 - q * r1) by (nonlinear_arith);
}

impl M31 {
    /// The multiplicative inverse of a nonzero element: the base field's
    /// modulus is prime, so every nonzero element has one.
    ///
    /// Computed by the extended Euclidean algorithm on the value and the
    /// modulus, carrying the Bezout coefficient reduced mod `P`. Ghost
    /// cofactors witness that the final remainder divides both inputs; with
    /// the modulus free of nontrivial factors, that remainder is 1, and the
    /// carried coefficient is the inverse.
    pub fn inverse(self) -> (r: M31)
        requires
            m31_wf(self),
            self@ != 0,
        ensures
            m31_wf(r),
            fmul(self@, r@) == 1,
    {
        let pp: u64 = P as u64;
        let v: u64 = self.v as u64;
        let mut r0: u64 = pp;
        let mut r1: u64 = v;
        let mut u0: u64 = 0;
        let mut u1: u64 = 1;
        // Cofactors expressing the original inputs over the current pair:
        // P == b0*r0 + b1*r1 and v == a0*r0 + a1*r1 throughout.
        let ghost mut a0: int = 0;
        let ghost mut a1: int = 1;
        let ghost mut b0: int = 1;
        let ghost mut b1: int = 0;
        while r1 > 0
            invariant
                1 <= v && (v as int) < P as int,
                v == self@,
                pp == P as int,
                1 <= r0 <= P,
                r1 <= P,
                u0 < P,
                u1 < P,
                (v as int * u0 as int) % (P as int) == r0 as int % (P as int),
                (v as int * u1 as int) % (P as int) == r1 as int % (P as int),
                v as int == a0 * r0 + a1 * r1,
                P as int == b0 * r0 + b1 * r1,
            decreases r1,
        {
            let q: u64 = r0 / r1;
            let rem: u64 = r0 % r1;
            proof {
                assert((q as int % pp as int) * (u1 as int) < 0x4000_0000_0000_0000)
                    by (nonlinear_arith)
                    requires
                        0 <= (q as int % pp as int) && (q as int % pp as int) < 0x8000_0000,
                        0 <= u1 < 0x8000_0000,
                ;
            }
            let t: u64 = ((q % pp) * u1) % pp;
            let u2: u64 = (u0 + (pp - t)) % pp;
            proof {
                lemma_inverse_step(
                    v as int,
                    u0 as int,
                    u1 as int,
                    q as int,
                    r0 as int,
                    r1 as int,
                    u2 as int,
                );
                lemma_fundamental_div_mod(r0 as int, r1 as int);
                assert(rem as int == r0 - q * r1);
                assert(rem < P);
                lemma_small_mod(rem as nat, P as nat);
                // New cofactors for the rotated pair (r1, rem).
                assert(v as int == (a0 * q + a1) * r1 + a0 * (r0 - q * r1)) by (nonlinear_arith)
                    requires
                        v as int == a0 * r0 + a1 * r1,
                ;
                assert(P as int == (b0 * q + b1) * r1 + b0 * (r0 - q * r1)) by (nonlinear_arith)
                    requires
                        P as int == b0 * r0 + b1 * r1,
                ;
            }
            r0 = r1;
            r1 = rem;
            u0 = u1;
            u1 = u2;
            proof {
                let na0 = a0 * q + a1;
                let nb0 = b0 * q + b1;
                let na1 = a0;
                let nb1 = b0;
                a0 = na0;
                a1 = na1;
                b0 = nb0;
                b1 = nb1;
            }
        }
        proof {
            let pp_int = P as int;
            assert(v as int == a0 * r0);
            assert(P as int == b0 * r0);
            assert(a0 >= 1) by (nonlinear_arith)
                requires
                    v as int == a0 * (r0 as int),
                    1 <= r0,
                    1 <= v as int,
            ;
            assert(r0 as int <= v as int) by (nonlinear_arith)
                requires
                    v as int == a0 * (r0 as int),
                    1 <= a0,
                    1 <= r0,
            ;
            if r0 >= 2 {
                assert(b0 >= 2) by (nonlinear_arith)
                    requires
                        P as int == b0 * (r0 as int),
                        1 <= r0 as int,
                        (r0 as int) < P as int,
                ;
                let aa: int = if r0 as int <= b0 {
                    r0 as int
                } else {
                    b0
                };
                let bb: int = if r0 as int <= b0 {
                    b0
                } else {
                    r0 as int
                };
                assert(aa * bb == P as int) by (nonlinear_arith)
                    requires
                        P as int == b0 * (r0 as int),
                        aa == (if r0 as int <= b0 { r0 as int } else { b0 }),
                        bb == (if r0 as int <= b0 { b0 } else { r0 as int }),
                ;
                assert(aa * aa <= P as int) by (nonlinear_arith)
                    requires
                        aa * bb == P as int,
                        2 <= aa <= bb,
                ;
                assert(aa < 65536) by (nonlinear_arith)
                    requires
                        aa * aa <= 0x7fff_ffff,
                        2 <= aa,
                ;
                assert(2 * bb <= P as int) by (nonlinear_arith)
                    requires
                        aa * bb == P as int,
                        2 <= aa,
                        1 <= bb,
                ;
                lemma_no_factor();
                let au = aa as u64;
                let bu = bb as u64;
                assert(au * bu != 0x7fff_ffff);
                assert(au * bu == aa * bb) by (nonlinear_arith)
                    requires
                        au == aa,
                        bu == bb,
                ;
                assert(false);
            }
            assert(r0 == 1);
            lemma_small_mod(1nat, P as nat);
            assert((v as int * u0 as int) % pp_int == 1);
        }
        M31 { v: u0 as u32 }
    }
}

/// Reduced values are fixed by a final reduction.
pub proof fn lemma_small_reduce(a: int)
    requires
        0 <= a < P as int,
    ensures
        a % (P as int) == a,
{
    lemma_small_mod(a as nat, P as nat);
}

} // verus!
