use circle_quotients::circle::{CircleDomain, CirclePoint, SecureCirclePoint};
use circle_quotients::field::{M31, P};
use circle_quotients::quotients::{
    accumulate_quotients, accumulate_row_quotients, batch_random_coeffs, column_line_coeffs,
    ColumnSampleBatch, QuotientConstants, QuotientError,
};
use circle_quotients::secure::QM31;
use circle_quotients::utils::{bit_reverse, bit_reverse_index};

fn fe(v: u32) -> M31 {
    M31::new(v)
}

fn qm(a: u32, b: u32, c: u32, d: u32) -> QM31 {
    QM31::new(fe(a), fe(b), fe(c), fe(d))
}

fn m31_mul(a: M31, b: M31) -> M31 {
    a.mul(b)
}

fn pt_add(p: (M31, M31), q: (M31, M31)) -> (M31, M31) {
    (
        m31_mul(p.0, q.0).sub(m31_mul(p.1, q.1)),
        m31_mul(p.0, q.1).add(m31_mul(p.1, q.0)),
    )
}

fn pt_mul(p: (M31, M31), mut k: u64) -> (M31, M31) {
    let mut acc = (fe(1), fe(0));
    let mut base = p;
    while k > 0 {
        if k & 1 == 1 {
            acc = pt_add(acc, base);
        }
        base = pt_add(base, base);
        k >>= 1;
    }
    acc
}

fn m31_inv(a: M31) -> M31 {
    a.inverse()
}

/// A generator of the full circle group: the first tangent-parametrized
/// point whose `2^30`-th multiple is not the identity.
fn circle_gen() -> (M31, M31) {
    let mut t: u32 = 1;
    loop {
        let tt = fe(t);
        let denom = fe(1).add(tt.mul(tt));
        if denom.v != 0 {
            let inv = m31_inv(denom);
            let p = (fe(1).sub(tt.mul(tt)).mul(inv), fe(2).mul(tt).mul(inv));
            let half_order = pt_mul(p, 1u64 << 30);
            if !(half_order.0.v == 1 && half_order.1.v == 0) {
                let full = pt_mul(p, 1u64 << 31);
                assert!(full.0.v == 1 && full.1.v == 0);
                return p;
            }
        }
        t += 1;
    }
}

/// The canonic evaluation domain of the given log-size, in natural order:
/// a half coset of odd multiples and the conjugates of its points.
fn canonic_domain(log_size: u32) -> CircleDomain {
    let g = circle_gen();
    let half = 1usize << (log_size - 1);
    let initial_exp = 1u64 << (31 - log_size - 1);
    let step_exp = 1u64 << (32 - log_size);
    let mut points = Vec::new();
    for i in 0..half {
        let p = pt_mul(g, initial_exp + (i as u64) * step_exp);
        points.push(CirclePoint { x: p.0, y: p.1 });
    }
    for i in 0..half {
        let p = pt_mul(g, initial_exp + (i as u64) * step_exp);
        points.push(CirclePoint { x: p.0, y: p.1.neg() });
    }
    CircleDomain::new(log_size, points).unwrap()
}

/// An out-of-domain sample point: tangent-parametrized over the secure field.
fn secure_sample_point(t: QM31) -> SecureCirclePoint {
    let one = QM31::one();
    let denom = one.add(t.mul(t));
    let inv = denom.inverse().unwrap();
    let x = one.sub(t.mul(t)).mul(inv);
    let y = t.add(t).mul(inv);
    assert_eq!(x.mul(x).add(y.mul(y)), one);
    SecureCirclePoint { x, y }
}

#[test]
fn empty_batches_give_zero_output() {
    let domain = canonic_domain(2);
    let columns = vec![vec![fe(3), fe(1), fe(4), fe(1)]];
    let coeff = qm(7, 0, 3, 9);
    let result = accumulate_quotients(domain, &columns, coeff, &Vec::new()).unwrap();
    assert_eq!(result.values.len(), 4);
    for v in result.values {
        assert_eq!(v, QM31::zero());
    }
}

#[test]
fn batch_composition_matches_single_call() {
    let domain1 = canonic_domain(2);
    let domain2 = canonic_domain(2);
    let domain12 = canonic_domain(2);
    let columns = vec![vec![fe(11), fe(22), fe(33), fe(44)]];
    let rc = qm(5, 4, 3, 2);
    let p1 = secure_sample_point(qm(1, 2, 3, 4));
    let p2 = secure_sample_point(qm(9, 8, 7, 6));
    let b1 = ColumnSampleBatch {
        point: p1,
        columns_and_values: vec![(0, qm(10, 20, 30, 40))],
    };
    let b2 = ColumnSampleBatch {
        point: p2,
        columns_and_values: vec![(0, qm(50, 60, 70, 80))],
    };
    let b1c = ColumnSampleBatch {
        point: p1,
        columns_and_values: vec![(0, qm(10, 20, 30, 40))],
    };
    let b2c = ColumnSampleBatch {
        point: p2,
        columns_and_values: vec![(0, qm(50, 60, 70, 80))],
    };
    let acc1 = accumulate_quotients(domain1, &columns, rc, &vec![b1]).unwrap();
    let acc2 = accumulate_quotients(domain2, &columns, rc, &vec![b2]).unwrap();
    let both = accumulate_quotients(domain12, &columns, rc, &vec![b1c, b2c]).unwrap();
    for r in 0..4 {
        let combined = acc1.values[r].mul(rc).add(acc2.values[r]);
        assert_eq!(combined, both.values[r]);
    }
}

#[test]
fn batched_inversion_gives_identities() {
    let elems = vec![
        qm(1, 0, 0, 0),
        qm(2, 3, 4, 5),
        qm(0, 0, 0, 1),
        qm(123456, 654321, 7, 0),
        qm(P - 1, P - 2, P - 3, P - 4),
    ];
    let inverses = QM31::batch_inverse(&elems).unwrap();
    assert_eq!(inverses.len(), elems.len());
    for (e, i) in elems.iter().zip(inverses.iter()) {
        assert_eq!(e.mul(*i), QM31::one());
    }
}

#[test]
fn batched_inversion_rejects_zero() {
    let elems = vec![qm(2, 3, 4, 5), QM31::zero(), qm(1, 1, 1, 1)];
    assert!(QM31::batch_inverse(&elems).is_none());
}

#[test]
fn bit_reversal_is_an_involution() {
    let v: Vec<M31> = (0..16u32).map(fe).collect();
    let once = bit_reverse(&v, 4);
    let twice = bit_reverse(&once, 4);
    assert_eq!(v, twice);
    // And the permutation really moves entries.
    assert_eq!(once[1], v[8]);
    assert_eq!(bit_reverse_index(1, 4), 8);
    assert_eq!(bit_reverse_index(8, 4), 1);
}

#[test]
fn out_of_range_column_index_is_reported() {
    let domain = canonic_domain(2);
    let columns = vec![vec![fe(1), fe(2), fe(3), fe(4)]];
    let batch = ColumnSampleBatch {
        point: secure_sample_point(qm(1, 2, 3, 4)),
        columns_and_values: vec![(5, qm(1, 1, 1, 1))],
    };
    let r = accumulate_quotients(domain, &columns, qm(1, 2, 3, 4), &vec![batch]);
    assert!(matches!(r, Err(QuotientError::IndexOutOfRange)));
}

#[test]
fn colliding_sample_point_is_reported() {
    let domain = canonic_domain(2);
    let p0 = domain.at(1);
    let columns = vec![vec![fe(1), fe(2), fe(3), fe(4)]];
    // A point on the chord through itself and its conjugate that passes
    // through the domain point (x + s*u, y + t*u): its pair-vanishing
    // polynomial is zero at (x, y).
    let point = SecureCirclePoint {
        x: QM31::new(p0.x, fe(0), fe(5), fe(0)),
        y: QM31::new(p0.y, fe(0), fe(7), fe(0)),
    };
    let batch = ColumnSampleBatch {
        point,
        columns_and_values: vec![(0, qm(1, 1, 1, 1))],
    };
    let r = accumulate_quotients(domain, &columns, qm(1, 2, 3, 4), &vec![batch]);
    assert!(matches!(r, Err(QuotientError::InvalidSample)));
}

#[test]
fn mismatched_constants_are_reported() {
    let columns = vec![vec![fe(1), fe(2), fe(3), fe(4)]];
    let batch = ColumnSampleBatch {
        point: secure_sample_point(qm(1, 2, 3, 4)),
        columns_and_values: vec![(0, qm(1, 1, 1, 1))],
    };
    let empty_constants = QuotientConstants {
        line_coeffs: Vec::new(),
        batch_random_coeffs: Vec::new(),
        denominator_inverses: Vec::new(),
    };
    let r = accumulate_row_quotients(
        &vec![batch],
        &columns,
        &empty_constants,
        0,
        CirclePoint { x: fe(1), y: fe(0) },
    );
    assert!(matches!(r, Err(QuotientError::ShapeMismatch)));
}

#[test]
fn line_coefficients_follow_the_formula() {
    let rc = qm(3, 1, 4, 1);
    let point = secure_sample_point(qm(2, 7, 1, 8));
    let value = qm(31, 41, 59, 26);
    let batch = ColumnSampleBatch {
        point,
        columns_and_values: vec![(0, value)],
    };
    let coeffs = column_line_coeffs(&vec![batch], rc);
    assert_eq!(coeffs.len(), 1);
    assert_eq!(coeffs[0].len(), 1);
    let alpha = rc;
    let a = value.complex_conjugate().sub(value);
    let c = point.y.complex_conjugate().sub(point.y);
    let b = value.mul(c).sub(a.mul(point.y));
    assert_eq!(coeffs[0][0], (alpha.mul(a), alpha.mul(b), alpha.mul(c)));
}

#[test]
fn batch_coefficients_are_challenge_powers() {
    let rc = qm(3, 1, 4, 1);
    let point = secure_sample_point(qm(2, 7, 1, 8));
    let batch = ColumnSampleBatch {
        point,
        columns_and_values: vec![(0, qm(1, 0, 0, 0)), (1, qm(2, 0, 0, 0))],
    };
    let coeffs = batch_random_coeffs(&vec![batch], rc);
    assert_eq!(coeffs, vec![rc.mul(rc)]);
}

#[test]
fn base_field_arithmetic_wraps_at_the_modulus() {
    assert_eq!(fe(P).v, 0);
    assert_eq!(fe(P - 1).add(fe(2)).v, 1);
    assert_eq!(fe(5).sub(fe(7)).v, P - 2);
    assert_eq!(fe(1 << 30).mul(fe(4)).v, 2);
    let x = fe(123456789);
    assert_eq!(x.mul(m31_inv(x)).v, 1);
    assert_eq!(fe(1).inverse().v, 1);
    assert_eq!(fe(P - 1).inverse().v, P - 1);
    assert_eq!(fe(2).inverse().v, 1 << 30);
}
