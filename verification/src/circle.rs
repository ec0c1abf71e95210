//! Points of the evaluation curve and the evaluation domain.
//!
//! The domain is a power-of-two ordered collection of base-field points,
//! exposing natural-order lookup; bit-reversed enumeration is derived with
//! the index utilities.

use vstd::prelude::*;
use vstd::arithmetic::power2::pow2;
use crate::field::{M31, P, m31_wf};
use crate::secure::{QM31, qm_wf, q_conj};

verus! {

/// A point of the curve with base-field coordinates.
#[derive(Clone, Copy, PartialEq, Eq, Structural, Debug)]
pub struct CirclePoint {
    pub x: M31,
    pub y: M31,
}

/// Reduced coordinates.
pub open spec fn point_wf(p: CirclePoint) -> bool {
    m31_wf(p.x) && m31_wf(p.y)
}

/// A point of the curve with secure-field coordinates: an out-of-domain
/// sample point lives here.
#[derive(Clone, Copy, PartialEq, Eq, Structural, Debug)]
pub struct SecureCirclePoint {
    pub x: QM31,
    pub y: QM31,
}

/// Reduced coordinates.
pub open spec fn secure_point_wf(p: SecureCirclePoint) -> bool {
    qm_wf(p.x) && qm_wf(p.y)
}

impl SecureCirclePoint {
    /// The conjugate point: conjugation applied to both coordinates.
    pub fn complex_conjugate(self) -> (r: SecureCirclePoint)
        requires
            secure_point_wf(self),
        ensures
            secure_point_wf(r),
            r.x@ == q_conj(self.x@),
            r.y@ == q_conj(self.y@),
    {
        SecureCirclePoint { x: self.x.complex_conjugate(), y: self.y.complex_conjugate() }
    }
}

/// The evaluation domain: `2^log_size` curve points in natural order.
#[derive(Debug)]
pub struct CircleDomain {
    pub log_size: u32,
    pub points: Vec<CirclePoint>,
}

/// Shape and reducedness of a domain.
pub open spec fn domain_wf(d: CircleDomain) -> bool {
    &&& d.log_size <= 31
    &&& d.points@.len() == pow2(d.log_size as nat)
    &&& forall|i: int| 0 <= i < d.points@.len() ==> point_wf(#[trigger] d.points@[i])
}

impl CircleDomain {
    /// A domain from its natural-order points; `None` when the shape or a
    /// coordinate is wrong.
    pub fn new(log_size: u32, points: Vec<CirclePoint>) -> (r: Option<CircleDomain>)
        ensures
            r is Some ==> domain_wf(r->Some_0) && r->Some_0.log_size == log_size
                && r->Some_0.points@ == points@,
            r is Some <==> (log_size <= 31 && points@.len() == pow2(log_size as nat) && forall|
                i: int,
            |
                0 <= i < points@.len() ==> point_wf(#[trigger] points@[i])),
    {
        if log_size > 31 {
            return None;
        }
        proof {
            vstd::arithmetic::power2::lemma2_to64();
        }
        let mut size: usize = 1;
        let mut t: u32 = 0;
        while t < log_size
            invariant
                t <= log_size,
                log_size <= 31,
                size == pow2(t as nat),
                size <= 0x8000_0000,
            decreases log_size - t,
        {
            proof {
                vstd::arithmetic::power2::lemma_pow2_unfold((t + 1) as nat);
                if t + 1 < 31 {
                    vstd::arithmetic::power2::lemma_pow2_strictly_increases((t + 1) as nat, 31);
                }
                vstd::arithmetic::power2::lemma2_to64();
            }
            size = size * 2;
            t = t + 1;
        }
        if points.len() != size {
            return None;
        }
        let mut i: usize = 0;
        while i < points.len()
            invariant
                i <= points@.len(),
                forall|j: int| 0 <= j < i ==> point_wf(#[trigger] points@[j]),
            decreases points@.len() - i,
        {
            if points[i].x.v >= P || points[i].y.v >= P {
                return None;
            }
            i = i + 1;
        }
        Some(CircleDomain { log_size, points })
    }

    /// The number of rows.
    pub fn size(&self) -> (r: usize)
        ensures
            r == self.points@.len(),
    {
        self.points.len()
    }

    /// The log of the number of rows.
    pub fn log_size(&self) -> (r: u32)
        ensures
            r == self.log_size,
    {
        self.log_size
    }

    /// The point at row `i`, in natural order.
    pub fn at(&self, i: usize) -> (r: CirclePoint)
        requires
            i < self.points@.len(),
        ensures
            r == self.points@[i as int],
    {
        self.points[i]
    }
}

} // verus!
