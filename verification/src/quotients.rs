//! Quotient accumulation: per-claim line coefficients, per-batch random
//! weights, batched denominator inversion, and the per-row accumulation that
//! folds them into one combined quotient evaluation.

use vstd::prelude::*;
use crate::field::{M31, m31_wf};
use crate::secure::{
    QM31, Q4, qm_wf, q4_wf, q_add, q_sub, q_mul, q_scale, q_conj, q_zero, q_one, q_pow,
};
use crate::circle::{CirclePoint, SecureCirclePoint, secure_point_wf, point_wf, CircleDomain,
    domain_wf};
use crate::constraints::{PointSample, s_line_coeffs, s_pair_vanishing,
    complex_conjugate_line_coeffs, pair_vanishing};
use crate::utils::{bit_rev, bit_reverse, bit_reverse_index, lemma_bit_rev_range,
    lemma_bit_rev_involution};

verus! {

/// Claims sharing one evaluation point: an ordered list of
/// (column index, claimed value) pairs, enabling shared denominator work.
#[derive(Clone, Debug)]
pub struct ColumnSampleBatch {
    pub point: SecureCirclePoint,
    pub columns_and_values: Vec<(usize, QM31)>,
}

/// A well-formed batch: reduced point and claimed values.
pub open spec fn batch_wf(b: ColumnSampleBatch) -> bool {
    &&& secure_point_wf(b.point)
    &&& forall|j: int|
        0 <= j < b.columns_and_values@.len() ==> qm_wf(#[trigger] b.columns_and_values@[j].1)
}

/// All batches well formed.
pub open spec fn batches_wf(s: Seq<ColumnSampleBatch>) -> bool {
    forall|b: int| 0 <= b < s.len() ==> batch_wf(#[trigger] s[b])
}

/// The line-coefficient precondition: every batch point's `y`-coordinate
/// differs from its conjugate, so the matched line exists.
pub open spec fn batches_conj_distinct(s: Seq<ColumnSampleBatch>) -> bool {
    forall|b: int| 0 <= b < s.len() ==> #[trigger] s[b].point.y@ != q_conj(s[b].point.y@)
}

/// Well-formed columns: every entry reduced.
pub open spec fn columns_wf(cs: Seq<Vec<M31>>) -> bool {
    forall|i: int, j: int|
        0 <= i < cs.len() && 0 <= j < cs[i]@.len() ==> m31_wf(#[trigger] cs[i]@[j])
}

/// The model of a line-coefficient triple.
pub open spec fn tri_view(t: (QM31, QM31, QM31)) -> (Q4, Q4, Q4) {
    (t.0@, t.1@, t.2@)
}

/// A reduced triple.
pub open spec fn tri_wf(t: (QM31, QM31, QM31)) -> bool {
    qm_wf(t.0) && qm_wf(t.1) && qm_wf(t.2)
}

/// The line coefficients of one batch: the claim at list position `j` is
/// weighted by the `(j+1)`-th power of the random challenge.
pub open spec fn s_batch_line_coeffs(b: ColumnSampleBatch, rc: Q4) -> Seq<(Q4, Q4, Q4)> {
    Seq::new(
        b.columns_and_values@.len(),
        |j: int|
            s_line_coeffs(
                b.point.y@,
                b.columns_and_values@[j].1@,
                q_pow(rc, (j + 1) as nat),
            ),
    )
}

/// The line coefficients of every batch.
pub open spec fn s_all_line_coeffs(batches: Seq<ColumnSampleBatch>, rc: Q4) -> Seq<
    Seq<(Q4, Q4, Q4)>,
> {
    Seq::new(batches.len(), |b: int| s_batch_line_coeffs(batches[b], rc))
}

/// The random weight folding one batch into the next: the challenge to the
/// power of the batch's claim count.
pub open spec fn s_batch_coeff(b: ColumnSampleBatch, rc: Q4) -> Q4 {
    q_pow(rc, b.columns_and_values@.len())
}

/// The batch weights of every batch.
pub open spec fn s_batch_coeffs(batches: Seq<ColumnSampleBatch>, rc: Q4) -> Seq<Q4> {
    Seq::new(batches.len(), |b: int| s_batch_coeff(batches[b], rc))
}

/// Per batch, per column, the line coefficients `(alpha^(j+1) * a,
/// alpha^(j+1) * b, alpha^(j+1) * c)` of the claim's matched line.
pub fn column_line_coeffs(sample_batches: &Vec<ColumnSampleBatch>, random_coeff: QM31) -> (r: Vec<
    Vec<(QM31, QM31, QM31)>,
>)
    requires
        batches_wf(sample_batches@),
        batches_conj_distinct(sample_batches@),
        qm_wf(random_coeff),
    ensures
        r@.len() == sample_batches@.len(),
        forall|b: int|
            0 <= b < r@.len() ==> (#[trigger] r@[b])@.len()
                == sample_batches@[b].columns_and_values@.len(),
        forall|b: int, j: int|
            0 <= b < r@.len() && 0 <= j < r@[b]@.len() ==> tri_wf(#[trigger] r@[b]@[j]),
        forall|b: int, j: int|
            0 <= b < r@.len() && 0 <= j < r@[b]@.len() ==> tri_view(#[trigger] r@[b]@[j])
                == s_all_line_coeffs(sample_batches@, random_coeff@)[b][j],
{
    let n = sample_batches.len();
    let mut r: Vec<Vec<(QM31, QM31, QM31)>> = Vec::new();
    let mut b: usize = 0;
    while b < n
        invariant
            batches_wf(sample_batches@),
            batches_conj_distinct(sample_batches@),
            qm_wf(random_coeff),
            n == sample_batches@.len(),
            b <= n,
            r@.len() == b,
            forall|b2: int|
                0 <= b2 < b ==> (#[trigger] r@[b2])@.len()
                    == sample_batches@[b2].columns_and_values@.len(),
            forall|b2: int, j: int|
                0 <= b2 < b && 0 <= j < r@[b2]@.len() ==> tri_wf(#[trigger] r@[b2]@[j]),
            forall|b2: int, j: int|
                0 <= b2 < b && 0 <= j < r@[b2]@.len() ==> tri_view(#[trigger] r@[b2]@[j])
                    == s_batch_line_coeffs(sample_batches@[b2], random_coeff@)[j],
        decreases n - b,
    {
        let batch = &sample_batches[b];
        let m = batch.columns_and_values.len();
        let mut coeffs: Vec<(QM31, QM31, QM31)> = Vec::new();
        let mut alpha = QM31::one();
        let mut j: usize = 0;
        while j < m
            invariant
                batches_wf(sample_batches@),
                batches_conj_distinct(sample_batches@),
                qm_wf(random_coeff),
                b < sample_batches@.len(),
                batch == &sample_batches@[b as int],
                m == batch.columns_and_values@.len(),
                j <= m,
                coeffs@.len() == j,
                qm_wf(alpha),
                alpha@ == q_pow(random_coeff@, j as nat),
                forall|j2: int| 0 <= j2 < j ==> tri_wf(#[trigger] coeffs@[j2]),
                forall|j2: int|
                    0 <= j2 < j ==> tri_view(#[trigger] coeffs@[j2]) == s_batch_line_coeffs(
                        sample_batches@[b as int],
                        random_coeff@,
                    )[j2],
            decreases m - j,
        {
            alpha = alpha.mul(random_coeff);
            let value = batch.columns_and_values[j].1;
            let sample = PointSample { point: batch.point, value };
            let tri = complex_conjugate_line_coeffs(&sample, alpha);
            coeffs.push(tri);
            j = j + 1;
        }
        r.push(coeffs);
        b = b + 1;
    }
    r
}

/// What can go wrong while preparing the constants; every error aborts the
/// whole call before any row is processed.
#[derive(Clone, Copy, PartialEq, Eq, Structural, Debug)]
pub enum QuotientError {
    /// A batch references a column index not present in the supplied columns.
    IndexOutOfRange,
    /// A batch's claim count disagrees with its precomputed coefficients.
    ShapeMismatch,
    /// A denominator is exactly zero: the domain point collides with a
    /// sample point or its conjugate.
    InvalidSample,
}

/// The vanishing polynomial of the pair {batch point, its conjugate},
/// evaluated at a domain point.
pub open spec fn s_denominator(b: ColumnSampleBatch, p: CirclePoint) -> Q4 {
    s_pair_vanishing(b.point.x@, b.point.y@, q_conj(b.point.x@), q_conj(b.point.y@), p.x@, p.y@)
}

/// The flat concatenation of the denominators of the first `b` batches, each
/// batch contributing one value per domain row in natural order.
spec fn s_denoms_prefix(
    batches: Seq<ColumnSampleBatch>,
    points: Seq<CirclePoint>,
    b: int,
) -> Seq<Q4>
    decreases b,
{
    if b <= 0 {
        Seq::empty()
    } else {
        s_denoms_prefix(batches, points, b - 1) + s_denoms_row(batches[b - 1], points)
    }
}

/// One batch's denominators across all domain rows, natural order.
spec fn s_denoms_row(batch: ColumnSampleBatch, points: Seq<CirclePoint>) -> Seq<Q4> {
    Seq::new(points.len(), |r: int| s_denominator(batch, points[r]))
}

/// A longer flat prefix extends a shorter one.
proof fn lemma_prefix_extend(
    batches: Seq<ColumnSampleBatch>,
    points: Seq<CirclePoint>,
    b: int,
    n: int,
)
    requires
        0 <= b <= n,
    ensures
        s_denoms_prefix(batches, points, b).len() <= s_denoms_prefix(batches, points, n).len(),
        forall|k: int|
            0 <= k < s_denoms_prefix(batches, points, b).len() ==> #[trigger] s_denoms_prefix(
                batches,
                points,
                n,
            )[k] == s_denoms_prefix(batches, points, b)[k],
    decreases n - b,
{
    if b < n {
        lemma_prefix_extend(batches, points, b, n - 1);
    }
}

/// A segment of the flat inverse table inverts one batch's denominators.
spec fn seg_inverts(
    inv: Seq<QM31>,
    batch: ColumnSampleBatch,
    points: Seq<CirclePoint>,
    base: int,
) -> bool {
    forall|k: int|
        base <= k < base + points.len() ==> qm_wf(#[trigger] inv[k]) && q_mul(
            s_denominator(batch, points[k - base]),
            inv[k]@,
        ) == q_one()
}

/// One batch's inverse table entry is correct: of the domain's length, and
/// holding at bit-reversed position `bit_rev(row)` an inverse of the row's
/// denominator.
spec fn batch_dinv_ok(
    dv: Vec<QM31>,
    batch: ColumnSampleBatch,
    points: Seq<CirclePoint>,
    log_size: nat,
) -> bool {
    &&& dv@.len() == points.len()
    &&& forall|k: int| 0 <= k < dv@.len() ==> qm_wf(#[trigger] dv@[k])
    &&& forall|row: int|
        0 <= row < points.len() ==> q_mul(
            s_denominator(batch, points[row]),
            #[trigger] dv@[bit_rev(row as nat, log_size) as int]@,
        ) == q_one()
}

/// The flat inverse table inverts the flat denominator table pointwise.
spec fn inverts_pointwise(flat: Seq<QM31>, inv: Seq<QM31>) -> bool {
    &&& inv.len() == flat.len()
    &&& forall|k: int|
        0 <= k < flat.len() ==> qm_wf(#[trigger] inv[k]) && q_mul(flat[k]@, inv[k]@) == q_one()
}

/// The flat table holds the given model values pointwise.
spec fn flat_matches(flat: Seq<QM31>, total: Seq<Q4>) -> bool {
    &&& flat.len() == total.len()
    &&& forall|k: int| 0 <= k < flat.len() ==> (#[trigger] flat[k])@ == total[k]
}

/// The denominator-inverse table is correct for the given batches and
/// domain points: one sequence per batch, of the domain's length, holding at
/// bit-reversed position `bit_rev(row)` a verified inverse of the row's
/// denominator.
pub open spec fn dinv_ok(
    dv: Seq<Vec<QM31>>,
    batches: Seq<ColumnSampleBatch>,
    points: Seq<CirclePoint>,
    log_size: nat,
) -> bool {
    &&& dv.len() == batches.len()
    &&& forall|b: int| 0 <= b < dv.len() ==> (#[trigger] dv[b])@.len() == points.len()
    &&& forall|b: int, k: int|
        0 <= b < dv.len() && 0 <= k < dv[b]@.len() ==> qm_wf(#[trigger] dv[b]@[k])
    &&& forall|b: int, row: int|
        0 <= b < dv.len() && 0 <= row < points.len() ==> q_mul(
            s_denominator(batches[b], points[row]),
            #[trigger] dv[b]@[bit_rev(row as nat, log_size) as int]@,
        ) == q_one()
}

/// Per batch, the inverted denominators across all domain rows, handed out
/// in bit-reversed row order to match the storage of column evaluations.
///
/// All (batch, row) denominators are inverted in one batched pass; a zero
/// denominator is reported as `InvalidSample`.
#[verifier::rlimit(100)]
#[verifier::loop_isolation(true)]
pub fn denominator_inverses(
    sample_batches: &Vec<ColumnSampleBatch>,
    domain: &CircleDomain,
) -> (r: Result<Vec<Vec<QM31>>, QuotientError>)
    requires
        batches_wf(sample_batches@),
        domain_wf(*domain),
    ensures
        r is Ok ==> dinv_ok(
            r->Ok_0@,
            sample_batches@,
            domain.points@,
            domain.log_size as nat,
        ),
        (exists|b: int, row: int|
            0 <= b < sample_batches@.len() && 0 <= row < domain.points@.len()
                && #[trigger] s_denominator(sample_batches@[b], domain.points@[row])
                == q_zero()) ==> r is Err,
        r is Err ==> r == Result::<Vec<Vec<QM31>>, QuotientError>::Err(
            QuotientError::InvalidSample,
        ),
        sample_batches@.len() == 0 ==> r is Ok,
{
    let n = sample_batches.len();
    let size = domain.size();
    let ghost batches = sample_batches@;
    let ghost points = domain.points@;
    let mut flat: Vec<QM31> = Vec::new();
    let mut b: usize = 0;
    while b < n
        invariant
            batches_wf(batches),
            domain_wf(*domain),
            batches == sample_batches@,
            points == domain.points@,
            n == batches.len(),
            size == points.len(),
            b <= n,
            flat@.len() == s_denoms_prefix(batches, points, b as int).len(),
            forall|k: int| 0 <= k < flat@.len() ==> qm_wf(#[trigger] flat@[k]),
            forall|k: int|
                0 <= k < flat@.len() ==> (#[trigger] flat@[k])@ == s_denoms_prefix(
                    batches,
                    points,
                    b as int,
                )[k],
        decreases n - b,
    {
        let batch_point = sample_batches[b].point;
        let conj_point = batch_point.complex_conjugate();
        let ghost base = flat@.len() as int;
        let mut row: usize = 0;
        while row < size
            invariant
                batches_wf(batches),
                domain_wf(*domain),
                batches == sample_batches@,
                points == domain.points@,
                n == batches.len(),
                size == points.len(),
                b < n,
                batch_point == batches[b as int].point,
                secure_point_wf(batch_point),
                secure_point_wf(conj_point),
                conj_point.x@ == q_conj(batch_point.x@),
                conj_point.y@ == q_conj(batch_point.y@),
                row <= size,
                base == s_denoms_prefix(batches, points, b as int).len(),
                flat@.len() == base + row,
                forall|k: int| 0 <= k < flat@.len() ==> qm_wf(#[trigger] flat@[k]),
                forall|k: int|
                    0 <= k < base ==> (#[trigger] flat@[k])@ == s_denoms_prefix(
                        batches,
                        points,
                        b as int,
                    )[k],
                forall|r2: int|
                    0 <= r2 < row ==> (#[trigger] flat@[base + r2])@ == s_denominator(
                        batches[b as int],
                        points[r2],
                    ),
            decreases size - row,
        {
            let d = pair_vanishing(batch_point, conj_point, domain.at(row));
            flat.push(d);
            row = row + 1;
        }
        proof {
            let next = s_denoms_prefix(batches, points, b as int + 1);
            assert forall|k: int| 0 <= k < flat@.len() implies (#[trigger] flat@[k])@ == next[k] by {
                if k < base {
                    assert(next[k] == s_denoms_prefix(batches, points, b as int)[k]);
                } else {
                    assert(next[k] == s_denoms_row(batches[b as int], points)[k - base]);
                    assert(flat@[base + (k - base)]@ == s_denominator(
                        batches[b as int],
                        points[k - base],
                    ));
                }
            }
        }
        b = b + 1;
    }
    let ghost total = s_denoms_prefix(batches, points, n as int);
    let inv_flat = match QM31::batch_inverse(&flat) {
        Some(iv) => iv,
        None => {
            return Err(QuotientError::InvalidSample);
        },
    };
    let mut out: Vec<Vec<QM31>> = Vec::new();
    let mut off: usize = 0;
    let mut b2: usize = 0;
    let inv_flat_len = inv_flat.len();
    proof {
        assert(flat_matches(flat@, total));
        assert(inverts_pointwise(flat@, inv_flat@));
    }
    while b2 < n
        invariant
            batches_wf(batches),
            domain_wf(*domain),
            batches == sample_batches@,
            points == domain.points@,
            n == batches.len(),
            size == points.len(),
            b2 <= n,
            off == s_denoms_prefix(batches, points, b2 as int).len(),
            total == s_denoms_prefix(batches, points, n as int),
            flat_matches(flat@, total),
            inverts_pointwise(flat@, inv_flat@),
            inv_flat_len == inv_flat@.len(),
            out@.len() == b2,
            forall|b3: int|
                0 <= b3 < b2 ==> batch_dinv_ok(
                    #[trigger] out@[b3],
                    batches[b3],
                    points,
                    domain.log_size as nat,
                ),
        decreases n - b2,
    {
        let ghost base = off as int;
        let mut chunk: Vec<QM31> = Vec::new();
        let mut row: usize = 0;
        proof {
            lemma_prefix_extend(batches, points, b2 as int + 1, n as int);
            let next = s_denoms_prefix(batches, points, b2 as int + 1);
            assert(next.len() == base + size);
            assert forall|k: int| base <= k < base + size implies qm_wf(#[trigger] inv_flat@[k])
                && q_mul(
                s_denominator(batches[b2 as int], points[k - base]),
                inv_flat@[k]@,
            ) == q_one() by {
                assert(next[k] == s_denoms_row(batches[b2 as int], points)[k - base]);
                assert(total[k] == next[k]);
                assert(flat@[k]@ == total[k]);
            }
            assert(seg_inverts(inv_flat@, batches[b2 as int], points, base));
        }
        while row < size
            invariant
                row <= size,
                base + size <= inv_flat@.len(),
                inv_flat@.len() <= usize::MAX,
                off == base + row,
                chunk@.len() == row,
                forall|r2: int| 0 <= r2 < row ==> #[trigger] chunk@[r2] == inv_flat@[base + r2],
            decreases size - row,
        {
            chunk.push(inv_flat[off]);
            off = off + 1;
            row = row + 1;
        }
        proof {
            assert forall|r2: int| 0 <= r2 < size implies qm_wf(#[trigger] chunk@[r2]) && q_mul(
                s_denominator(batches[b2 as int], points[r2]),
                chunk@[r2]@,
            ) == q_one() by {
                assert(chunk@[r2] == inv_flat@[base + r2]);
                assert(seg_inverts(inv_flat@, batches[b2 as int], points, base));
                assert(qm_wf(inv_flat@[base + r2]) && q_mul(
                    s_denominator(batches[b2 as int], points[(base + r2) - base]),
                    inv_flat@[base + r2]@,
                ) == q_one());
            }
        }
        let rev = bit_reverse(&chunk, domain.log_size());
        proof {
            assert forall|row: int| 0 <= row < points.len() implies q_mul(
                s_denominator(batches[b2 as int], points[row]),
                rev@[bit_rev(row as nat, domain.log_size as nat) as int]@,
            ) == q_one() by {
                lemma_bit_rev_range(row as nat, domain.log_size as nat);
                lemma_bit_rev_involution(row as nat, domain.log_size as nat);
            }
            assert forall|k: int| 0 <= k < rev@.len() implies qm_wf(#[trigger] rev@[k]) by {
                lemma_bit_rev_range(k as nat, domain.log_size as nat);
            }
            assert(batch_dinv_ok(rev, batches[b2 as int], points, domain.log_size as nat));
        }
        out.push(rev);
        b2 = b2 + 1;
    }
    proof {
        assert forall|b3: int, k: int|
            0 <= b3 < out@.len() && 0 <= k < out@[b3]@.len() implies qm_wf(
            #[trigger] out@[b3]@[k],
        ) by {
            assert(batch_dinv_ok(out@[b3], batches[b3], points, domain.log_size as nat));
        }
        assert forall|b3: int, row: int|
            0 <= b3 < out@.len() && 0 <= row < points.len() implies q_mul(
            s_denominator(batches[b3], points[row]),
            #[trigger] out@[b3]@[bit_rev(row as nat, domain.log_size as nat) as int]@,
        ) == q_one() by {
            assert(batch_dinv_ok(out@[b3], batches[b3], points, domain.log_size as nat));
        }
        assert forall|b3: int| 0 <= b3 < out@.len() implies (#[trigger] out@[b3])@.len()
            == points.len() by {
            assert(batch_dinv_ok(out@[b3], batches[b3], points, domain.log_size as nat));
        }
    }
    proof {
        if exists|bz: int, rz: int|
            0 <= bz < batches.len() && 0 <= rz < points.len() && #[trigger] s_denominator(
                batches[bz],
                points[rz],
            ) == q_zero() {
            let (bz, rz) = choose|bz: int, rz: int|
                0 <= bz < batches.len() && 0 <= rz < points.len() && #[trigger] s_denominator(
                    batches[bz],
                    points[rz],
                ) == q_zero();
            lemma_prefix_extend(batches, points, bz + 1, n as int);
            let base = s_denoms_prefix(batches, points, bz).len() as int;
            let next = s_denoms_prefix(batches, points, bz + 1);
            assert(next[base + rz] == s_denoms_row(batches[bz], points)[rz]);
            assert(flat@[base + rz]@ == q_zero());
            assert(q_mul(flat@[base + rz]@, inv_flat@[base + rz]@) == q_one());
            crate::secure::lemma_q_mul_zero_left(inv_flat@[base + rz]@);
            assert(false);
        }
    }
    Ok(out)
}

/// Per batch, the random weight `random_coeff^(number of claims in the
/// batch)` used to fold the batch into the next one.
pub fn batch_random_coeffs(sample_batches: &Vec<ColumnSampleBatch>, random_coeff: QM31) -> (r: Vec<
    QM31,
>)
    requires
        batches_wf(sample_batches@),
        qm_wf(random_coeff),
    ensures
        r@.len() == sample_batches@.len(),
        forall|b: int| 0 <= b < r@.len() ==> qm_wf(#[trigger] r@[b]),
        forall|b: int|
            0 <= b < r@.len() ==> (#[trigger] r@[b])@ == s_batch_coeffs(
                sample_batches@,
                random_coeff@,
            )[b],
{
    let n = sample_batches.len();
    let mut r: Vec<QM31> = Vec::new();
    let mut b: usize = 0;
    while b < n
        invariant
            batches_wf(sample_batches@),
            qm_wf(random_coeff),
            n == sample_batches@.len(),
            b <= n,
            r@.len() == b,
            forall|b2: int| 0 <= b2 < b ==> qm_wf(#[trigger] r@[b2]),
            forall|b2: int|
                0 <= b2 < b ==> (#[trigger] r@[b2])@ == s_batch_coeff(
                    sample_batches@[b2],
                    random_coeff@,
                ),
        decreases n - b,
    {
        let count = sample_batches[b].columns_and_values.len();
        r.push(random_coeff.pow(count));
        b = b + 1;
    }
    r
}

/// Holds the precomputed constant values used in each quotient evaluation.
pub struct QuotientConstants {
    /// The line coefficients for each quotient numerator term.
    pub line_coeffs: Vec<Vec<(QM31, QM31, QM31)>>,
    /// The random coefficients used to linearly combine the batched
    /// quotients.
    pub batch_random_coeffs: Vec<QM31>,
    /// The inverses of the denominators of the quotients, per batch, in
    /// bit-reversed row order.
    pub denominator_inverses: Vec<Vec<QM31>>,
}

/// Every stored constant is reduced.
pub open spec fn qc_wf(qc: QuotientConstants) -> bool {
    &&& forall|b: int, j: int|
        0 <= b < qc.line_coeffs@.len() && 0 <= j < qc.line_coeffs@[b]@.len() ==> tri_wf(
            #[trigger] qc.line_coeffs@[b]@[j],
        )
    &&& forall|b: int|
        0 <= b < qc.batch_random_coeffs@.len() ==> qm_wf(#[trigger] qc.batch_random_coeffs@[b])
    &&& forall|b: int, k: int|
        0 <= b < qc.denominator_inverses@.len() && 0 <= k < qc.denominator_inverses@[b]@.len()
            ==> qm_wf(#[trigger] qc.denominator_inverses@[b]@[k])
}

/// The constants' shape agrees with the batches they were derived from.
pub open spec fn qc_shapes_ok(batches: Seq<ColumnSampleBatch>, qc: QuotientConstants) -> bool {
    &&& qc.line_coeffs@.len() == batches.len()
    &&& qc.batch_random_coeffs@.len() == batches.len()
    &&& qc.denominator_inverses@.len() == batches.len()
    &&& forall|b: int|
        0 <= b < batches.len() ==> (#[trigger] qc.line_coeffs@[b])@.len()
            == batches[b].columns_and_values@.len()
}

/// Every claim's column index is a valid index into the supplied columns.
pub open spec fn indices_ok(batches: Seq<ColumnSampleBatch>, columns: Seq<Vec<M31>>) -> bool {
    forall|b: int, j: int|
        0 <= b < batches.len() && 0 <= j < batches[b].columns_and_values@.len()
            ==> (#[trigger] batches[b].columns_and_values@[j]).0 < columns.len()
}

/// Every referenced column is long enough for the row.
pub open spec fn rows_ok(
    batches: Seq<ColumnSampleBatch>,
    columns: Seq<Vec<M31>>,
    row: int,
) -> bool {
    forall|b: int, j: int|
        0 <= b < batches.len() && 0 <= j < batches[b].columns_and_values@.len()
            && (#[trigger] batches[b].columns_and_values@[j]).0 < columns.len() ==> row < columns[
            batches[b].columns_and_values@[j].0 as int
        ]@.len()
}

/// Every inverse table entry is long enough for the row.
pub open spec fn dinv_rows_ok(qc: QuotientConstants, row: int) -> bool {
    forall|b: int|
        0 <= b < qc.denominator_inverses@.len() ==> row < (
        #[trigger] qc.denominator_inverses@[b])@.len()
}

/// The model of one batch's claims: (column index, claimed value) pairs.
pub open spec fn batch_cav(b: ColumnSampleBatch) -> Seq<(int, Q4)> {
    Seq::new(
        b.columns_and_values@.len(),
        |j: int| (b.columns_and_values@[j].0 as int, b.columns_and_values@[j].1@),
    )
}

/// The models of all batches' claims.
pub open spec fn batches_cavs(batches: Seq<ColumnSampleBatch>) -> Seq<Seq<(int, Q4)>> {
    Seq::new(batches.len(), |b: int| batch_cav(batches[b]))
}

/// The model of one column.
pub open spec fn col_view(c: Vec<M31>) -> Seq<int> {
    Seq::new(c@.len(), |j: int| c@[j]@)
}

/// The models of all columns.
pub open spec fn cols_view(cs: Seq<Vec<M31>>) -> Seq<Seq<int>> {
    Seq::new(cs.len(), |i: int| col_view(cs[i]))
}

/// The models of stored line-coefficient triples.
pub open spec fn lcs_view(s: Seq<Vec<(QM31, QM31, QM31)>>) -> Seq<Seq<(Q4, Q4, Q4)>> {
    Seq::new(s.len(), |b: int| Seq::new(s[b]@.len(), |j: int| tri_view(s[b]@[j])))
}

/// The models of stored batch coefficients.
pub open spec fn bcs_view(s: Seq<QM31>) -> Seq<Q4> {
    Seq::new(s.len(), |b: int| s[b]@)
}

/// The models of stored denominator inverses.
pub open spec fn dinvs_view(s: Seq<Vec<QM31>>) -> Seq<Seq<Q4>> {
    Seq::new(s.len(), |b: int| Seq::new(s[b]@.len(), |k: int| s[b]@[k]@))
}

/// The first `j` numerator terms of one batch at one row: each claim
/// contributes `c * column_value - (a * y + b)` with its precomputed
/// weighted line coefficients `(a, b, c)`.
pub open spec fn s_numer(
    cav: Seq<(int, Q4)>,
    lc: Seq<(Q4, Q4, Q4)>,
    cols: Seq<Seq<int>>,
    row: int,
    py: int,
    j: int,
) -> Q4
    decreases j,
{
    if j <= 0 {
        q_zero()
    } else {
        let term = q_sub(
            q_scale(lc[j - 1].2, cols[cav[j - 1].0][row]),
            q_add(q_scale(lc[j - 1].0, py), lc[j - 1].1),
        );
        q_add(s_numer(cav, lc, cols, row, py, j - 1), term)
    }
}

/// The row accumulator over the first `k` batches: Horner-style folding,
/// each batch's numerator multiplied by its denominator inverse at the row.
pub open spec fn s_row_acc(
    cavs: Seq<Seq<(int, Q4)>>,
    lcs: Seq<Seq<(Q4, Q4, Q4)>>,
    bcs: Seq<Q4>,
    dinvs: Seq<Seq<Q4>>,
    cols: Seq<Seq<int>>,
    row: int,
    py: int,
    k: int,
) -> Q4
    decreases k,
{
    if k <= 0 {
        q_zero()
    } else {
        q_add(
            q_mul(s_row_acc(cavs, lcs, bcs, dinvs, cols, row, py, k - 1), bcs[k - 1]),
            q_mul(
                s_numer(cavs[k - 1], lcs[k - 1], cols, row, py, cavs[k - 1].len() as int),
                dinvs[k - 1][row],
            ),
        )
    }
}

/// All precomputed constants for one accumulation call: line coefficients,
/// batch weights, and batched denominator inverses, derived from the same
/// batch list in the same order.
pub fn quotient_constants(
    sample_batches: &Vec<ColumnSampleBatch>,
    random_coeff: QM31,
    domain: &CircleDomain,
) -> (r: Result<QuotientConstants, QuotientError>)
    requires
        batches_wf(sample_batches@),
        batches_conj_distinct(sample_batches@),
        qm_wf(random_coeff),
        domain_wf(*domain),
    ensures
        r is Ok ==> {
            let qc = r->Ok_0;
            &&& qc_wf(qc)
            &&& qc_shapes_ok(sample_batches@, qc)
            &&& forall|b: int, j: int|
                0 <= b < sample_batches@.len() && 0 <= j < qc.line_coeffs@[b]@.len()
                    ==> tri_view(#[trigger] qc.line_coeffs@[b]@[j]) == s_all_line_coeffs(
                    sample_batches@,
                    random_coeff@,
                )[b][j]
            &&& forall|b: int|
                0 <= b < sample_batches@.len() ==> (#[trigger] qc.batch_random_coeffs@[b])@
                    == s_batch_coeffs(sample_batches@, random_coeff@)[b]
            &&& dinv_ok(
                qc.denominator_inverses@,
                sample_batches@,
                domain.points@,
                domain.log_size as nat,
            )
            &&& forall|b: int|
                0 <= b < sample_batches@.len() ==> (
                #[trigger] qc.denominator_inverses@[b])@.len() == domain.points@.len()
        },
        (exists|b: int, row: int|
            0 <= b < sample_batches@.len() && 0 <= row < domain.points@.len()
                && #[trigger] s_denominator(sample_batches@[b], domain.points@[row])
                == q_zero()) ==> r is Err,
        r is Err ==> r == Result::<QuotientConstants, QuotientError>::Err(
            QuotientError::InvalidSample,
        ),
        sample_batches@.len() == 0 ==> r is Ok,
{
    let line_coeffs = column_line_coeffs(sample_batches, random_coeff);
    let batch_random_coeffs = batch_random_coeffs(sample_batches, random_coeff);
    let denominator_inverses = match denominator_inverses(sample_batches, domain) {
        Ok(d) => d,
        Err(e) => {
            return Err(e);
        },
    };
    Ok(QuotientConstants { line_coeffs, batch_random_coeffs, denominator_inverses })
}

/// The combined quotient value of one row: for each batch, in order, the
/// numerator of its claims at this row times the batch's denominator
/// inverse, folded Horner-style with the batch weights.
///
/// Shape disagreements between the batches and the constants are reported
/// as `ShapeMismatch`, an out-of-range column index as `IndexOutOfRange`;
/// callers deriving the constants from the same batch list never see either.
#[verifier::loop_isolation(true)]
pub fn accumulate_row_quotients(
    sample_batches: &Vec<ColumnSampleBatch>,
    columns: &Vec<Vec<M31>>,
    quotient_constants: &QuotientConstants,
    row: usize,
    domain_point: CirclePoint,
) -> (r: Result<QM31, QuotientError>)
    requires
        batches_wf(sample_batches@),
        columns_wf(columns@),
        qc_wf(*quotient_constants),
        point_wf(domain_point),
    ensures
        r is Ok <==> (qc_shapes_ok(sample_batches@, *quotient_constants) && indices_ok(
            sample_batches@,
            columns@,
        ) && rows_ok(sample_batches@, columns@, row as int) && dinv_rows_ok(
            *quotient_constants,
            row as int,
        )),
        r is Ok ==> qm_wf(r->Ok_0) && r->Ok_0@ == s_row_acc(
            batches_cavs(sample_batches@),
            lcs_view(quotient_constants.line_coeffs@),
            bcs_view(quotient_constants.batch_random_coeffs@),
            dinvs_view(quotient_constants.denominator_inverses@),
            cols_view(columns@),
            row as int,
            domain_point.y@,
            sample_batches@.len() as int,
        ),
        r is Err ==> r == Result::<QM31, QuotientError>::Err(QuotientError::ShapeMismatch) && !(
        qc_shapes_ok(sample_batches@, *quotient_constants) && rows_ok(
            sample_batches@,
            columns@,
            row as int,
        ) && dinv_rows_ok(*quotient_constants, row as int)) || r == Result::<
            QM31,
            QuotientError,
        >::Err(QuotientError::IndexOutOfRange) && !indices_ok(sample_batches@, columns@),
{
    let n = sample_batches.len();
    if quotient_constants.line_coeffs.len() != n || quotient_constants.batch_random_coeffs.len()
        != n || quotient_constants.denominator_inverses.len() != n {
        return Err(QuotientError::ShapeMismatch);
    }
    let mut b: usize = 0;
    while b < n
        invariant
            batches_wf(sample_batches@),
            n == sample_batches@.len(),
            quotient_constants.line_coeffs@.len() == n,
            quotient_constants.denominator_inverses@.len() == n,
            b <= n,
            forall|b2: int|
                0 <= b2 < b ==> (#[trigger] quotient_constants.line_coeffs@[b2])@.len()
                    == sample_batches@[b2].columns_and_values@.len(),
            forall|b2: int|
                0 <= b2 < b ==> row < (
                #[trigger] quotient_constants.denominator_inverses@[b2])@.len(),
            forall|b2: int, j: int|
                0 <= b2 < b && 0 <= j < sample_batches@[b2].columns_and_values@.len()
                    ==> (#[trigger] sample_batches@[b2].columns_and_values@[j]).0 < columns@.len()
                    && row < columns@[sample_batches@[b2].columns_and_values@[j].0 as int]@.len(),
        decreases n - b,
    {
        let batch = &sample_batches[b];
        let m = batch.columns_and_values.len();
        if quotient_constants.line_coeffs[b].len() != m {
            return Err(QuotientError::ShapeMismatch);
        }
        if row >= quotient_constants.denominator_inverses[b].len() {
            return Err(QuotientError::ShapeMismatch);
        }
        let mut j: usize = 0;
        while j < m
            invariant
                n == sample_batches@.len(),
                b < n,
                batch == &sample_batches@[b as int],
                m == batch.columns_and_values@.len(),
                j <= m,
                forall|j2: int|
                    0 <= j2 < j ==> (#[trigger] batch.columns_and_values@[j2]).0 < columns@.len()
                        && row < columns@[batch.columns_and_values@[j2].0 as int]@.len(),
            decreases m - j,
        {
            let ci = batch.columns_and_values[j].0;
            if ci >= columns.len() {
                return Err(QuotientError::IndexOutOfRange);
            }
            if row >= columns[ci].len() {
                return Err(QuotientError::ShapeMismatch);
            }
            j = j + 1;
        }
        b = b + 1;
    }
    let ghost cavs = batches_cavs(sample_batches@);
    let ghost lcs = lcs_view(quotient_constants.line_coeffs@);
    let ghost bcs = bcs_view(quotient_constants.batch_random_coeffs@);
    let ghost dinvs = dinvs_view(quotient_constants.denominator_inverses@);
    let ghost cols = cols_view(columns@);
    let mut row_accumulator = QM31::zero();
    let mut b2: usize = 0;
    while b2 < n
        invariant
            batches_wf(sample_batches@),
            columns_wf(columns@),
            qc_wf(*quotient_constants),
            point_wf(domain_point),
            qc_shapes_ok(sample_batches@, *quotient_constants),
            indices_ok(sample_batches@, columns@),
            rows_ok(sample_batches@, columns@, row as int),
            dinv_rows_ok(*quotient_constants, row as int),
            n == sample_batches@.len(),
            cavs == batches_cavs(sample_batches@),
            lcs == lcs_view(quotient_constants.line_coeffs@),
            bcs == bcs_view(quotient_constants.batch_random_coeffs@),
            dinvs == dinvs_view(quotient_constants.denominator_inverses@),
            cols == cols_view(columns@),
            b2 <= n,
            qm_wf(row_accumulator),
            row_accumulator@ == s_row_acc(
                cavs,
                lcs,
                bcs,
                dinvs,
                cols,
                row as int,
                domain_point.y@,
                b2 as int,
            ),
        decreases n - b2,
    {
        let batch = &sample_batches[b2];
        let m = batch.columns_and_values.len();
        let mut numerator = QM31::zero();
        let mut j: usize = 0;
        while j < m
            invariant
                batches_wf(sample_batches@),
                columns_wf(columns@),
                qc_wf(*quotient_constants),
                point_wf(domain_point),
                qc_shapes_ok(sample_batches@, *quotient_constants),
                indices_ok(sample_batches@, columns@),
                rows_ok(sample_batches@, columns@, row as int),
                n == sample_batches@.len(),
                b2 < n,
                batch == &sample_batches@[b2 as int],
                m == batch.columns_and_values@.len(),
                cavs == batches_cavs(sample_batches@),
                lcs == lcs_view(quotient_constants.line_coeffs@),
                cols == cols_view(columns@),
                j <= m,
                qm_wf(numerator),
                numerator@ == s_numer(
                    cavs[b2 as int],
                    lcs[b2 as int],
                    cols,
                    row as int,
                    domain_point.y@,
                    j as int,
                ),
            decreases m - j,
        {
            let ci = batch.columns_and_values[j].0;
            let tri = quotient_constants.line_coeffs[b2][j];
            let column = &columns[ci];
            let value = tri.2.scale(column[row]);
            let linear_term = tri.0.scale(domain_point.y).add(tri.1);
            numerator = numerator.add(value.sub(linear_term));
            j = j + 1;
        }
        let batch_coeff = quotient_constants.batch_random_coeffs[b2];
        let denom_inv = quotient_constants.denominator_inverses[b2][row];
        row_accumulator = row_accumulator.mul(batch_coeff).add(numerator.mul(denom_inv));
        b2 = b2 + 1;
    }
    Ok(row_accumulator)
}

/// The combined quotient evaluation: the domain paired with one secure-field
/// value per row, in bit-reversed row order matching the columns' storage.
pub struct SecureEvaluation {
    pub domain: CircleDomain,
    pub values: Vec<QM31>,
}

/// A mathematical denominator-inverse table: correct inverses of every
/// (batch, row) denominator, stored in bit-reversed row order.
pub open spec fn dinvs_inverts(
    dinvs: Seq<Seq<Q4>>,
    batches: Seq<ColumnSampleBatch>,
    points: Seq<CirclePoint>,
    log_size: nat,
) -> bool {
    &&& dinvs.len() == batches.len()
    &&& forall|b: int| 0 <= b < dinvs.len() ==> (#[trigger] dinvs[b]).len() == points.len()
    &&& forall|b: int, row: int|
        0 <= b < dinvs.len() && 0 <= row < points.len() ==> q_mul(
            s_denominator(batches[b], points[row]),
            #[trigger] dinvs[b][bit_rev(row as nat, log_size) as int],
        ) == q_one()
}

/// Accumulates all claim batches into one combined quotient evaluation.
///
/// The constants are precomputed once, then every row is accumulated: row
/// `r` of the output is the row accumulator at storage row `r`, whose domain
/// point is the one at the bit-reversed index of `r`. An empty batch list
/// yields the all-zero evaluation; a bad column index aborts with
/// `IndexOutOfRange` and a zero denominator with `InvalidSample`, before any
/// row is processed. A zero random challenge is accepted: every claim and
/// batch weight then collapses to zero and the whole output is zero.
#[verifier::loop_isolation(true)]
pub fn accumulate_quotients(
    domain: CircleDomain,
    columns: &Vec<Vec<M31>>,
    random_coeff: QM31,
    sample_batches: &Vec<ColumnSampleBatch>,
) -> (r: Result<SecureEvaluation, QuotientError>)
    requires
        domain_wf(domain),
        columns_wf(columns@),
        forall|i: int| 0 <= i < columns@.len() ==> (#[trigger] columns@[i])@.len()
            == domain.points@.len(),
        batches_wf(sample_batches@),
        batches_conj_distinct(sample_batches@),
        qm_wf(random_coeff),
    ensures
        r is Ok ==> ({
            let ev = r->Ok_0;
            &&& ev.domain == domain
            &&& ev.values@.len() == domain.points@.len()
            &&& forall|k: int| 0 <= k < ev.values@.len() ==> qm_wf(#[trigger] ev.values@[k])
            &&& exists|dinvs: Seq<Seq<Q4>>|
                #[trigger] dinvs_inverts(
                    dinvs,
                    sample_batches@,
                    domain.points@,
                    domain.log_size as nat,
                ) && forall|row: int|
                    0 <= row < ev.values@.len() ==> (#[trigger] ev.values@[row])@ == s_row_acc(
                        batches_cavs(sample_batches@),
                        s_all_line_coeffs(sample_batches@, random_coeff@),
                        s_batch_coeffs(sample_batches@, random_coeff@),
                        dinvs,
                        cols_view(columns@),
                        row,
                        domain.points@[bit_rev(row as nat, domain.log_size as nat) as int].y@,
                        sample_batches@.len() as int,
                    )
        }),
        sample_batches@.len() == 0 ==> r is Ok && forall|row: int|
            0 <= row < r->Ok_0.values@.len() ==> (#[trigger] r->Ok_0.values@[row])@ == q_zero(),
        r == Result::<SecureEvaluation, QuotientError>::Err(QuotientError::IndexOutOfRange)
            <==> !indices_ok(sample_batches@, columns@),
        (indices_ok(sample_batches@, columns@) && exists|b: int, row: int|
            0 <= b < sample_batches@.len() && 0 <= row < domain.points@.len()
                && #[trigger] s_denominator(sample_batches@[b], domain.points@[row])
                == q_zero()) ==> r is Err,
        r is Err ==> r == Result::<SecureEvaluation, QuotientError>::Err(
            QuotientError::IndexOutOfRange,
        ) || r == Result::<SecureEvaluation, QuotientError>::Err(QuotientError::InvalidSample),
{
    let n = sample_batches.len();
    // Validate every column index up front: errors abort before any row.
    let mut b: usize = 0;
    while b < n
        invariant
            n == sample_batches@.len(),
            b <= n,
            forall|b2: int, j: int|
                0 <= b2 < b && 0 <= j < sample_batches@[b2].columns_and_values@.len()
                    ==> (#[trigger] sample_batches@[b2].columns_and_values@[j]).0 < columns@.len(),
        decreases n - b,
    {
        let batch = &sample_batches[b];
        let m = batch.columns_and_values.len();
        let mut j: usize = 0;
        while j < m
            invariant
                n == sample_batches@.len(),
                b < n,
                batch == &sample_batches@[b as int],
                m == batch.columns_and_values@.len(),
                j <= m,
                forall|j2: int|
                    0 <= j2 < j ==> (#[trigger] batch.columns_and_values@[j2]).0 < columns@.len(),
            decreases m - j,
        {
            if batch.columns_and_values[j].0 >= columns.len() {
                return Err(QuotientError::IndexOutOfRange);
            }
            j = j + 1;
        }
        b = b + 1;
    }
    let constants = match quotient_constants(sample_batches, random_coeff, &domain) {
        Ok(qc) => qc,
        Err(e) => {
            return Err(e);
        },
    };
    proof {
        assert(lcs_view(constants.line_coeffs@) =~~= s_all_line_coeffs(
            sample_batches@,
            random_coeff@,
        ));
        assert(bcs_view(constants.batch_random_coeffs@) =~= s_batch_coeffs(
            sample_batches@,
            random_coeff@,
        ));
    }
    let ghost dinvs = dinvs_view(constants.denominator_inverses@);
    proof {
        assert forall|b3: int, row: int|
            0 <= b3 < dinvs.len() && 0 <= row < domain.points@.len() implies q_mul(
            s_denominator(sample_batches@[b3], domain.points@[row]),
            #[trigger] dinvs[b3][bit_rev(row as nat, domain.log_size as nat) as int],
        ) == q_one() by {
            lemma_bit_rev_range(row as nat, domain.log_size as nat);
            assert(constants.denominator_inverses@[b3]@[bit_rev(
                row as nat,
                domain.log_size as nat,
            ) as int]@ == dinvs[b3][bit_rev(row as nat, domain.log_size as nat) as int]);
        }
        assert(dinvs_inverts(dinvs, sample_batches@, domain.points@, domain.log_size as nat));
    }
    let size = domain.size();
    let mut values: Vec<QM31> = Vec::new();
    let mut row: usize = 0;
    while row < size
        invariant
            domain_wf(domain),
            columns_wf(columns@),
            forall|i: int| 0 <= i < columns@.len() ==> (#[trigger] columns@[i])@.len()
                == domain.points@.len(),
            batches_wf(sample_batches@),
            qm_wf(random_coeff),
            n == sample_batches@.len(),
            size == domain.points@.len(),
            indices_ok(sample_batches@, columns@),
            qc_wf(constants),
            qc_shapes_ok(sample_batches@, constants),
            dinv_ok(
                constants.denominator_inverses@,
                sample_batches@,
                domain.points@,
                domain.log_size as nat,
            ),
            forall|b3: int| 0 <= b3 < n ==> (
                #[trigger] constants.denominator_inverses@[b3])@.len() == domain.points@.len(),
            lcs_view(constants.line_coeffs@) == s_all_line_coeffs(sample_batches@, random_coeff@),
            bcs_view(constants.batch_random_coeffs@) == s_batch_coeffs(
                sample_batches@,
                random_coeff@,
            ),
            dinvs == dinvs_view(constants.denominator_inverses@),
            row <= size,
            values@.len() == row,
            forall|r2: int| 0 <= r2 < row ==> qm_wf(#[trigger] values@[r2]),
            forall|r2: int|
                0 <= r2 < row ==> (#[trigger] values@[r2])@ == s_row_acc(
                    batches_cavs(sample_batches@),
                    s_all_line_coeffs(sample_batches@, random_coeff@),
                    s_batch_coeffs(sample_batches@, random_coeff@),
                    dinvs,
                    cols_view(columns@),
                    r2,
                    domain.points@[bit_rev(r2 as nat, domain.log_size as nat) as int].y@,
                    n as int,
                ),
        decreases size - row,
    {
        let idx = bit_reverse_index(row, domain.log_size());
        let domain_point = domain.at(idx);
        proof {
            assert forall|b3: int, j: int|
                0 <= b3 < n && 0 <= j < sample_batches@[b3].columns_and_values@.len()
                    && (#[trigger] sample_batches@[b3].columns_and_values@[j]).0 < columns@.len()
                implies (row as int) < columns@[sample_batches@[b3].columns_and_values@[j].0 as int]@.len() by {
                assert(columns@[sample_batches@[b3].columns_and_values@[j].0 as int]@.len()
                    == domain.points@.len());
            }
            assert(rows_ok(sample_batches@, columns@, row as int));
            assert(dinv_rows_ok(constants, row as int));
        }
        let row_value = match accumulate_row_quotients(
            sample_batches,
            columns,
            &constants,
            row,
            domain_point,
        ) {
            Ok(v) => v,
            Err(e) => {
                return Err(e);
            },
        };
        values.push(row_value);
        row = row + 1;
    }
    Ok(SecureEvaluation { domain, values })
}

/// Batch-composition law: accumulating two single-claim batches in one call
/// equals accumulating each alone and combining the first's row value with
/// one factor of the random challenge: `combined = acc1 * rc + acc2`. The
/// two sides read the same denominator-inverse tables `d1` and `d2`.
/// A one-batch row accumulation is the batch's numerator times its
/// denominator inverse at the row.
proof fn lemma_row_acc_single(
    cavs: Seq<Seq<(int, Q4)>>,
    lcs: Seq<Seq<(Q4, Q4, Q4)>>,
    bcs: Seq<Q4>,
    dinvs: Seq<Seq<Q4>>,
    cols: Seq<Seq<int>>,
    row: int,
    py: int,
)
    ensures
        s_row_acc(cavs, lcs, bcs, dinvs, cols, row, py, 1) == q_mul(
            s_numer(cavs[0], lcs[0], cols, row, py, cavs[0].len() as int),
            dinvs[0][row],
        ),
{
    reveal_with_fuel(s_row_acc, 2);
    let num = s_numer(cavs[0], lcs[0], cols, row, py, cavs[0].len() as int);
    crate::secure::lemma_q_mul_zero_left(bcs[0]);
    assert(q4_wf(q_mul(num, dinvs[0][row])));
    crate::secure::lemma_q_add_zero_left(q_mul(num, dinvs[0][row]));
}

/// A two-batch row accumulation folds the one-batch value with the second
/// batch's weight and adds the second batch's term.
proof fn lemma_row_acc_pair(
    cavs: Seq<Seq<(int, Q4)>>,
    lcs: Seq<Seq<(Q4, Q4, Q4)>>,
    bcs: Seq<Q4>,
    dinvs: Seq<Seq<Q4>>,
    cols: Seq<Seq<int>>,
    row: int,
    py: int,
)
    ensures
        s_row_acc(cavs, lcs, bcs, dinvs, cols, row, py, 2) == q_add(
            q_mul(s_row_acc(cavs, lcs, bcs, dinvs, cols, row, py, 1), bcs[1]),
            q_mul(s_numer(cavs[1], lcs[1], cols, row, py, cavs[1].len() as int), dinvs[1][row]),
        ),
{
}

#[verifier::rlimit(100)]
pub proof fn lemma_batch_composition(
    b1: ColumnSampleBatch,
    b2: ColumnSampleBatch,
    rc: Q4,
    d1: Seq<Q4>,
    d2: Seq<Q4>,
    cols: Seq<Seq<int>>,
    row: int,
    py: int,
)
    requires
        b1.columns_and_values@.len() == 1,
        b2.columns_and_values@.len() == 1,
        q4_wf(rc),
    ensures
        s_row_acc(
            batches_cavs(seq![b1, b2]),
            s_all_line_coeffs(seq![b1, b2], rc),
            s_batch_coeffs(seq![b1, b2], rc),
            seq![d1, d2],
            cols,
            row,
            py,
            2,
        ) == q_add(
            q_mul(
                s_row_acc(
                    batches_cavs(seq![b1]),
                    s_all_line_coeffs(seq![b1], rc),
                    s_batch_coeffs(seq![b1], rc),
                    seq![d1],
                    cols,
                    row,
                    py,
                    1,
                ),
                rc,
            ),
            s_row_acc(
                batches_cavs(seq![b2]),
                s_all_line_coeffs(seq![b2], rc),
                s_batch_coeffs(seq![b2], rc),
                seq![d2],
                cols,
                row,
                py,
                1,
            ),
        ),
{
    let pair = seq![b1, b2];
    let only1 = seq![b1];
    let only2 = seq![b2];
    let cavs_p = batches_cavs(pair);
    let lcs_p = s_all_line_coeffs(pair, rc);
    let bcs_p = s_batch_coeffs(pair, rc);
    let ds_p = seq![d1, d2];
    let cavs_1 = batches_cavs(only1);
    let lcs_1 = s_all_line_coeffs(only1, rc);
    let bcs_1 = s_batch_coeffs(only1, rc);
    let cavs_2 = batches_cavs(only2);
    let lcs_2 = s_all_line_coeffs(only2, rc);
    let bcs_2 = s_batch_coeffs(only2, rc);
    // The per-batch constants do not depend on the surrounding batch list.
    assert(cavs_p[0] == batch_cav(b1) && cavs_1[0] == batch_cav(b1));
    assert(lcs_p[0] == s_batch_line_coeffs(b1, rc) && lcs_1[0] == s_batch_line_coeffs(b1, rc));
    assert(cavs_p[1] == batch_cav(b2) && cavs_2[0] == batch_cav(b2));
    assert(lcs_p[1] == s_batch_line_coeffs(b2, rc) && lcs_2[0] == s_batch_line_coeffs(b2, rc));
    assert(ds_p[0] == d1 && ds_p[1] == d2);
    lemma_row_acc_pair(cavs_p, lcs_p, bcs_p, ds_p, cols, row, py);
    lemma_row_acc_single(cavs_p, lcs_p, bcs_p, ds_p, cols, row, py);
    lemma_row_acc_single(cavs_1, lcs_1, bcs_1, seq![d1], cols, row, py);
    lemma_row_acc_single(cavs_2, lcs_2, bcs_2, seq![d2], cols, row, py);
    // The second batch holds one claim, so its folding weight is rc^1 = rc.
    reveal_with_fuel(q_pow, 2);
    assert(bcs_p[1] == q_pow(rc, 1));
    assert(q_pow(rc, 1) == q_mul(q_one(), rc));
    crate::secure::lemma_q_mul_one_left(rc);
}

} // verus!
