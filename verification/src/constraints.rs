//! Per-claim line coefficients and the pair-vanishing polynomial.

use vstd::prelude::*;
use crate::field::M31;
use crate::secure::{
    QM31, Q4, qm_wf, q4_wf, q_add, q_sub, q_mul, q_scale, q_conj,
};
use crate::circle::{CirclePoint, SecureCirclePoint, secure_point_wf, point_wf};

verus! {

/// An opening claim against one column: a point and the claimed value there.
#[derive(Clone, Copy, PartialEq, Eq, Structural, Debug)]
pub struct PointSample {
    pub point: SecureCirclePoint,
    pub value: QM31,
}

/// A well-formed claim.
pub open spec fn sample_wf(s: PointSample) -> bool {
    secure_point_wf(s.point) && qm_wf(s.value)
}

/// The weighted coefficients `(alpha*a, alpha*b, alpha*c)` of the line
/// matched to a claim: `a*y + b` is `c` times the unique line through
/// `(py, value)` and `(conj(py), conj(value))`.
pub open spec fn s_line_coeffs(py: Q4, value: Q4, alpha: Q4) -> (Q4, Q4, Q4) {
    let a = q_sub(q_conj(value), value);
    let c = q_sub(q_conj(py), py);
    let b = q_sub(q_mul(value, c), q_mul(a, py));
    (q_mul(alpha, a), q_mul(alpha, b), q_mul(alpha, c))
}

/// The pair-vanishing polynomial of the points `e0` and `e1`, evaluated at a
/// base-field point `(px, py)`: the collinearity determinant of the three
/// points, zero exactly on the chord through `e0` and `e1`.
pub open spec fn s_pair_vanishing(e0x: Q4, e0y: Q4, e1x: Q4, e1y: Q4, px: int, py: int) -> Q4 {
    q_add(
        q_add(q_scale(q_sub(e0y, e1y), px), q_scale(q_sub(e1x, e0x), py)),
        q_sub(q_mul(e0x, e1y), q_mul(e0y, e1x)),
    )
}

/// The coefficients of the line matched to a claim and its conjugate,
/// weighted by `alpha`.
///
/// The line exists only when the point's `y`-coordinate differs from its
/// conjugate, which callers must guarantee.
pub fn complex_conjugate_line_coeffs(sample: &PointSample, alpha: QM31) -> (r: (QM31, QM31, QM31))
    requires
        sample_wf(*sample),
        qm_wf(alpha),
        sample.point.y@ != q_conj(sample.point.y@),
    ensures
        qm_wf(r.0) && qm_wf(r.1) && qm_wf(r.2),
        (r.0@, r.1@, r.2@) == s_line_coeffs(sample.point.y@, sample.value@, alpha@),
{
    let a = sample.value.complex_conjugate().sub(sample.value);
    let c = sample.point.y.complex_conjugate().sub(sample.point.y);
    let b = sample.value.mul(c).sub(a.mul(sample.point.y));
    (alpha.mul(a), alpha.mul(b), alpha.mul(c))
}

/// The pair-vanishing polynomial of `excluded0` and `excluded1` at the
/// base-field point `p`.
pub fn pair_vanishing(
    excluded0: SecureCirclePoint,
    excluded1: SecureCirclePoint,
    p: CirclePoint,
) -> (r: QM31)
    requires
        secure_point_wf(excluded0),
        secure_point_wf(excluded1),
        point_wf(p),
    ensures
        qm_wf(r),
        r@ == s_pair_vanishing(excluded0.x@, excluded0.y@, excluded1.x@, excluded1.y@, p.x@, p.y@),
{
    let first = excluded0.y.sub(excluded1.y).scale(p.x);
    let second = excluded1.x.sub(excluded0.x).scale(p.y);
    let third = excluded0.x.mul(excluded1.y).sub(excluded0.y.mul(excluded1.x));
    first.add(second).add(third)
}

} // verus!
