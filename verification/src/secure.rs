//! The secure field: the degree-4 extension of the base field.
//!
//! An element is `(x0 + x1*i) + (x2 + x3*i)*u` with `i*i = -1` and
//! `u*u = 2 + i`. The mathematical model of an element is the 4-tuple of its
//! reduced coordinates.

use vstd::prelude::*;
use crate::field::{M31, P, fadd, fsub, fmul};

verus! {

/// The mathematical value of a secure-field element: four residues mod `P`.
pub type Q4 = (int, int, int, int);

/// The model of a degree-2 extension element (a pair of residues).
pub type C2 = (int, int);

/// Pair addition in the degree-2 extension.
pub open spec fn c_add(x: C2, y: C2) -> C2 {
    (fadd(x.0, y.0), fadd(x.1, y.1))
}

/// Pair subtraction in the degree-2 extension.
pub open spec fn c_sub(x: C2, y: C2) -> C2 {
    (fsub(x.0, y.0), fsub(x.1, y.1))
}

/// Pair multiplication in the degree-2 extension: `i*i = -1`.
pub open spec fn c_mul(x: C2, y: C2) -> C2 {
    (fsub(fmul(x.0, y.0), fmul(x.1, y.1)), fadd(fmul(x.0, y.1), fmul(x.1, y.0)))
}

/// Secure-field addition.
pub open spec fn q_add(x: Q4, y: Q4) -> Q4 {
    (fadd(x.0, y.0), fadd(x.1, y.1), fadd(x.2, y.2), fadd(x.3, y.3))
}

/// Secure-field subtraction.
pub open spec fn q_sub(x: Q4, y: Q4) -> Q4 {
    (fsub(x.0, y.0), fsub(x.1, y.1), fsub(x.2, y.2), fsub(x.3, y.3))
}

/// Secure-field multiplication: with `x = A + C*u` and `y = B + D*u`,
/// the product is `A*B + (2 + i)*C*D + (A*D + C*B)*u`.
pub open spec fn q_mul(x: Q4, y: Q4) -> Q4 {
    let lo = c_add(c_mul((x.0, x.1), (y.0, y.1)), c_mul((2, 1), c_mul((x.2, x.3), (y.2, y.3))));
    let hi = c_add(c_mul((x.0, x.1), (y.2, y.3)), c_mul((x.2, x.3), (y.0, y.1)));
    (lo.0, lo.1, hi.0, hi.1)
}

/// Multiplication by a base-field scalar, coordinate by coordinate.
pub open spec fn q_scale(x: Q4, m: int) -> Q4 {
    (fmul(x.0, m), fmul(x.1, m), fmul(x.2, m), fmul(x.3, m))
}

/// Complex conjugation: the automorphism `u -> -u`, which fixes every
/// base-field value (and every degree-2 value).
pub open spec fn q_conj(x: Q4) -> Q4 {
    (x.0, x.1, fsub(0, x.2), fsub(0, x.3))
}

/// The additive identity.
pub open spec fn q_zero() -> Q4 {
    (0, 0, 0, 0)
}

/// The multiplicative identity.
pub open spec fn q_one() -> Q4 {
    (1, 0, 0, 0)
}

/// `x^n`, as the left fold of `n` multiplications.
pub open spec fn q_pow(x: Q4, n: nat) -> Q4
    decreases n,
{
    if n == 0 {
        q_one()
    } else {
        q_mul(q_pow(x, (n - 1) as nat), x)
    }
}

/// A reduced 4-tuple: every coordinate lies in `[0, P)`.
pub open spec fn q4_wf(x: Q4) -> bool {
    0 <= x.0 < P as int && 0 <= x.1 < P as int && 0 <= x.2 < P as int && 0 <= x.3 < P as int
}

/// A secure-field element: four base-field coordinates.
#[derive(Clone, Copy, PartialEq, Eq, Structural, Debug)]
pub struct QM31 {
    pub x0: M31,
    pub x1: M31,
    pub x2: M31,
    pub x3: M31,
}

impl View for QM31 {
    type V = Q4;

    open spec fn view(&self) -> Q4 {
        (self.x0@, self.x1@, self.x2@, self.x3@)
    }
}

/// A well-formed element holds reduced coordinates.
pub open spec fn qm_wf(x: QM31) -> bool {
    q4_wf(x@)
}

impl QM31 {
    /// The element with the given four reduced coordinates.
    pub fn new(x0: M31, x1: M31, x2: M31, x3: M31) -> (r: QM31)
        requires
            m31_wf_all(x0, x1, x2, x3),
        ensures
            qm_wf(r),
            r@ == (x0@, x1@, x2@, x3@),
    {
        QM31 { x0, x1, x2, x3 }
    }

    /// The additive identity.
    pub fn zero() -> (r: QM31)
        ensures
            qm_wf(r),
            r@ == q_zero(),
    {
        QM31 { x0: M31::zero(), x1: M31::zero(), x2: M31::zero(), x3: M31::zero() }
    }

    /// The multiplicative identity.
    pub fn one() -> (r: QM31)
        ensures
            qm_wf(r),
            r@ == q_one(),
    {
        QM31 { x0: M31::one(), x1: M31::zero(), x2: M31::zero(), x3: M31::zero() }
    }

    /// The embedding of a base-field element.
    pub fn from_base(m: M31) -> (r: QM31)
        requires
            crate::field::m31_wf(m),
        ensures
            qm_wf(r),
            r@ == (m@, 0int, 0int, 0int),
    {
        QM31 { x0: m, x1: M31::zero(), x2: M31::zero(), x3: M31::zero() }
    }

    /// Field addition.
    pub fn add(self, o: QM31) -> (r: QM31)
        requires
            qm_wf(self),
            qm_wf(o),
        ensures
            qm_wf(r),
            r@ == q_add(self@, o@),
    {
        QM31 {
            x0: self.x0.add(o.x0),
            x1: self.x1.add(o.x1),
            x2: self.x2.add(o.x2),
            x3: self.x3.add(o.x3),
        }
    }

    /// Field subtraction.
    pub fn sub(self, o: QM31) -> (r: QM31)
        requires
            qm_wf(self),
            qm_wf(o),
        ensures
            qm_wf(r),
            r@ == q_sub(self@, o@),
    {
        QM31 {
            x0: self.x0.sub(o.x0),
            x1: self.x1.sub(o.x1),
            x2: self.x2.sub(o.x2),
            x3: self.x3.sub(o.x3),
        }
    }

    /// Field multiplication.
    pub fn mul(self, o: QM31) -> (r: QM31)
        requires
            qm_wf(self),
            qm_wf(o),
        ensures
            qm_wf(r),
            r@ == q_mul(self@, o@),
    {
        // A*B and C*D in the degree-2 extension.
        let ab0 = self.x0.mul(o.x0).sub(self.x1.mul(o.x1));
        let ab1 = self.x0.mul(o.x1).add(self.x1.mul(o.x0));
        let cd0 = self.x2.mul(o.x2).sub(self.x3.mul(o.x3));
        let cd1 = self.x2.mul(o.x3).add(self.x3.mul(o.x2));
        // (2 + i) * (C*D).
        let two = M31 { v: 2 };
        let one = M31 { v: 1 };
        let rcd0 = two.mul(cd0).sub(one.mul(cd1));
        let rcd1 = two.mul(cd1).add(one.mul(cd0));
        // A*D and C*B.
        let ad0 = self.x0.mul(o.x2).sub(self.x1.mul(o.x3));
        let ad1 = self.x0.mul(o.x3).add(self.x1.mul(o.x2));
        let cb0 = self.x2.mul(o.x0).sub(self.x3.mul(o.x1));
        let cb1 = self.x2.mul(o.x1).add(self.x3.mul(o.x0));
        QM31 {
            x0: ab0.add(rcd0),
            x1: ab1.add(rcd1),
            x2: ad0.add(cb0),
            x3: ad1.add(cb1),
        }
    }

    /// Multiplication by a base-field scalar.
    pub fn scale(self, m: M31) -> (r: QM31)
        requires
            qm_wf(self),
            crate::field::m31_wf(m),
        ensures
            qm_wf(r),
            r@ == q_scale(self@, m@),
    {
        QM31 {
            x0: self.x0.mul(m),
            x1: self.x1.mul(m),
            x2: self.x2.mul(m),
            x3: self.x3.mul(m),
        }
    }

    /// Complex conjugation.
    pub fn complex_conjugate(self) -> (r: QM31)
        requires
            qm_wf(self),
        ensures
            qm_wf(r),
            r@ == q_conj(self@),
    {
        QM31 { x0: self.x0, x1: self.x1, x2: self.x2.neg(), x3: self.x3.neg() }
    }

    /// `self^n` by repeated multiplication.
    pub fn pow(self, n: usize) -> (r: QM31)
        requires
            qm_wf(self),
        ensures
            qm_wf(r),
            r@ == q_pow(self@, n as nat),
    {
        let mut acc = QM31::one();
        let mut i: usize = 0;
        while i < n
            invariant
                qm_wf(self),
                qm_wf(acc),
                i <= n,
                acc@ == q_pow(self@, i as nat),
            decreases n - i,
        {
            acc = acc.mul(self);
            i = i + 1;
        }
        acc
    }

    /// `self^n` for a wide exponent, by squaring; only well-formedness is
    /// promised, and callers check what they need of the result.
    fn pow_wide(self, n: u128) -> (r: QM31)
        requires
            qm_wf(self),
        ensures
            qm_wf(r),
    {
        let mut acc = QM31::one();
        let mut base = self;
        let mut e = n;
        while e > 0
            invariant
                qm_wf(acc),
                qm_wf(base),
            decreases e,
        {
            if e % 2 == 1 {
                acc = acc.mul(base);
            }
            base = base.mul(base);
            e = e / 2;
        }
        acc
    }

    /// The multiplicative inverse, when one is found.
    ///
    /// A candidate is computed by exponentiation with the group order less
    /// one, and then checked: `Some` is returned only with a verified
    /// inverse, and zero (which has none) always yields `None`.
    pub fn inverse(self) -> (r: Option<QM31>)
        requires
            qm_wf(self),
        ensures
            r is Some ==> qm_wf(r->Some_0) && q_mul(self@, r->Some_0@) == q_one(),
            self@ == q_zero() ==> r is None,
    {
        // The multiplicative group has order P^4 - 1; a nonzero element's
        // inverse is its power to P^4 - 2.
        let p = P as u128;
        proof {
            assert(2 <= p * p && p * p < 0x4000_0000_0000_0000u128) by (nonlinear_arith)
                requires
                    p == 0x7fff_ffffu128,
            ;
        }
        let p2 = p * p;
        proof {
            assert(2 <= p2 * p2 && p2 * p2 < 0xffff_ffff_ffff_ffff_ffff_ffff_ffff_ffffu128)
                by (nonlinear_arith)
                requires
                    2 <= p2 < 0x4000_0000_0000_0000u128,
            ;
        }
        let exp = p2 * p2 - 2;
        let cand = self.pow_wide(exp);
        let check = self.mul(cand);
        if check == QM31::one() {
            proof {
                lemma_q_mul_zero_left(cand@);
            }
            Some(cand)
        } else {
            None
        }
    }

    /// Inverses of a whole sequence at once: prefix products, one inversion,
    /// and a backward substitution, then every product is checked.
    ///
    /// On `Some`, every element times its computed inverse is the
    /// multiplicative identity; a sequence holding zero always yields `None`.
    pub fn batch_inverse(v: &Vec<QM31>) -> (r: Option<Vec<QM31>>)
        requires
            forall|i: int| 0 <= i < v@.len() ==> qm_wf(#[trigger] v@[i]),
        ensures
            r is Some ==> {
                &&& r->Some_0@.len() == v@.len()
                &&& forall|i: int|
                    0 <= i < v@.len() ==> qm_wf(#[trigger] r->Some_0@[i])
                        && q_mul(v@[i]@, r->Some_0@[i]@) == q_one()
            },
            (exists|i: int| 0 <= i < v@.len() && #[trigger] v@[i]@ == q_zero()) ==> r is None,
            v@.len() == 0 ==> r is Some,
    {
        let n = v.len();
        let mut prefixes: Vec<QM31> = Vec::new();
        let mut acc = QM31::one();
        let mut i: usize = 0;
        while i < n
            invariant
                forall|k: int| 0 <= k < v@.len() ==> qm_wf(#[trigger] v@[k]),
                n == v@.len(),
                i <= n,
                prefixes@.len() == i,
                qm_wf(acc),
                forall|k: int| 0 <= k < i ==> qm_wf(#[trigger] prefixes@[k]),
            decreases n - i,
        {
            acc = acc.mul(v[i]);
            prefixes.push(acc);
            i = i + 1;
        }
        let total_inverse = if n == 0 {
            QM31::one()
        } else {
            match prefixes[n - 1].inverse() {
                Some(t) => t,
                None => {
                    return None;
                },
            }
        };
        // Backward pass: the inverse of element i is the inverse of the
        // product of all elements up to i, times the prefix product up to
        // i - 1.
        let mut reversed: Vec<QM31> = Vec::new();
        let mut cur = total_inverse;
        let mut j: usize = n;
        while j > 0
            invariant
                forall|k: int| 0 <= k < v@.len() ==> qm_wf(#[trigger] v@[k]),
                forall|k: int| 0 <= k < prefixes@.len() ==> qm_wf(#[trigger] prefixes@[k]),
                n == v@.len(),
                prefixes@.len() == n,
                j <= n,
                reversed@.len() == n - j,
                qm_wf(cur),
                forall|k: int| 0 <= k < reversed@.len() ==> qm_wf(#[trigger] reversed@[k]),
            decreases j,
        {
            j = j - 1;
            let inv_j = if j == 0 {
                cur
            } else {
                cur.mul(prefixes[j - 1])
            };
            reversed.push(inv_j);
            cur = cur.mul(v[j]);
        }
        let mut out: Vec<QM31> = Vec::new();
        let mut k: usize = 0;
        while k < n
            invariant
                forall|t: int| 0 <= t < reversed@.len() ==> qm_wf(#[trigger] reversed@[t]),
                n == v@.len(),
                reversed@.len() == n,
                k <= n,
                out@.len() == k,
                forall|t: int| 0 <= t < k ==> qm_wf(#[trigger] out@[t]),
            decreases n - k,
        {
            out.push(reversed[n - 1 - k]);
            k = k + 1;
        }
        // Verify every inverse before handing the batch out.
        let mut t: usize = 0;
        while t < n
            invariant
                forall|k2: int| 0 <= k2 < v@.len() ==> qm_wf(#[trigger] v@[k2]),
                forall|k2: int| 0 <= k2 < out@.len() ==> qm_wf(#[trigger] out@[k2]),
                n == v@.len(),
                out@.len() == n,
                t <= n,
                forall|k2: int| 0 <= k2 < t ==> q_mul(v@[k2]@, #[trigger] out@[k2]@) == q_one(),
            decreases n - t,
        {
            if v[t].mul(out[t]) != QM31::one() {
                return None;
            }
            t = t + 1;
        }
        proof {
            if exists|i2: int| 0 <= i2 < v@.len() && #[trigger] v@[i2]@ == q_zero() {
                let i2 = choose|i2: int| 0 <= i2 < v@.len() && #[trigger] v@[i2]@ == q_zero();
                lemma_q_mul_zero_left(out@[i2]@);
                assert(false);
            }
        }
        Some(out)
    }
}

/// Four reduced coordinates at once.
pub open spec fn m31_wf_all(x0: M31, x1: M31, x2: M31, x3: M31) -> bool {
    crate::field::m31_wf(x0) && crate::field::m31_wf(x1) && crate::field::m31_wf(x2)
        && crate::field::m31_wf(x3)
}

/// Zero annihilates every product.
pub proof fn lemma_q_mul_zero_left(y: Q4)
    ensures
        q_mul(q_zero(), y) == q_zero(),
{
    assert(q_mul(q_zero(), y).0 == 0);
    assert(q_mul(q_zero(), y).1 == 0);
    assert(q_mul(q_zero(), y).2 == 0);
    assert(q_mul(q_zero(), y).3 == 0);
}

/// The identity leaves every reduced element unchanged.
pub proof fn lemma_q_mul_one_left(y: Q4)
    requires
        q4_wf(y),
    ensures
        q_mul(q_one(), y) == y,
{
    crate::field::lemma_small_reduce(y.0);
    crate::field::lemma_small_reduce(y.1);
    crate::field::lemma_small_reduce(y.2);
    crate::field::lemma_small_reduce(y.3);
}

/// Adding zero on the left changes nothing reduced.
pub proof fn lemma_q_add_zero_left(y: Q4)
    requires
        q4_wf(y),
    ensures
        q_add(q_zero(), y) == y,
{
    crate::field::lemma_small_reduce(y.0);
    crate::field::lemma_small_reduce(y.1);
    crate::field::lemma_small_reduce(y.2);
    crate::field::lemma_small_reduce(y.3);
}

} // verus!
