use circle_quotients::circle::{CircleDomain, CirclePoint, SecureCirclePoint};
use circle_quotients::field::M31;
use circle_quotients::quotients::{accumulate_quotients, ColumnSampleBatch};
use circle_quotients::secure::QM31;
use circle_quotients::utils::bit_reverse_index;

fn fe(v: u32) -> M31 {
    M31::new(v)
}

fn qm(a: u32, b: u32, c: u32, d: u32) -> QM31 {
    QM31::new(fe(a), fe(b), fe(c), fe(d))
}

fn pt_add(p: (M31, M31), q: (M31, M31)) -> (M31, M31) {
    (
        p.0.mul(q.0).sub(p.1.mul(q.1)),
        p.0.mul(q.1).add(p.1.mul(q.0)),
    )
}

fn pt_mul(p: (M31, M31), mut k: u64) -> (M31, M31) {
    let mut acc = (fe(1), fe(0));
    let mut base = p;
    while k > 0 {
        if k & 1 == 1 {
            acc = pt_add(acc, base);
        }
        base = pt_add(base, base);
        k >>= 1;
    }
    acc
}

fn m31_inv(a: M31) -> M31 {
    a.inverse()
}

fn circle_gen() -> (M31, M31) {
    let mut t: u32 = 1;
    loop {
        let tt = fe(t);
        let denom = fe(1).add(tt.mul(tt));
        if denom.v != 0 {
            let inv = m31_inv(denom);
            let p = (fe(1).sub(tt.mul(tt)).mul(inv), fe(2).mul(tt).mul(inv));
            let half_order = pt_mul(p, 1u64 << 30);
            if !(half_order.0.v == 1 && half_order.1.v == 0) {
                return p;
            }
        }
        t += 1;
    }
}

fn canonic_domain_points(log_size: u32) -> Vec<CirclePoint> {
    let g = circle_gen();
    let half = 1usize << (log_size - 1);
    let initial_exp = 1u64 << (31 - log_size - 1);
    let step_exp = 1u64 << (32 - log_size);
    let mut points = Vec::new();
    for i in 0..half {
        let p = pt_mul(g, initial_exp + (i as u64) * step_exp);
        points.push(CirclePoint { x: p.0, y: p.1 });
    }
    for i in 0..half {
        let p = pt_mul(g, initial_exp + (i as u64) * step_exp);
        points.push(CirclePoint { x: p.0, y: p.1.neg() });
    }
    points
}

fn secure_sample_point(t: QM31) -> SecureCirclePoint {
    let one = QM31::one();
    let denom = one.add(t.mul(t));
    let inv = denom.inverse().unwrap();
    let x = one.sub(t.mul(t)).mul(inv);
    let y = t.add(t).mul(inv);
    SecureCirclePoint { x, y }
}

/// The circle-FFT basis function of index `j` at a base-field point: a
/// product of `y`, `x`, and repeated applications of `2x^2 - 1`, one factor
/// per set bit of `j`.
fn basis_at(p: CirclePoint, j: usize, log_n: u32) -> M31 {
    let mut acc = fe(1);
    if j & 1 == 1 {
        acc = acc.mul(p.y);
    }
    let mut cur = p.x;
    for bit in 1..log_n {
        if (j >> bit) & 1 == 1 {
            acc = acc.mul(cur);
        }
        cur = fe(2).mul(cur).mul(cur).sub(fe(1));
    }
    acc
}

fn eval_at_base(coeffs: &[M31], p: CirclePoint, log_n: u32) -> M31 {
    let mut acc = fe(0);
    for (j, c) in coeffs.iter().enumerate() {
        acc = acc.add(c.mul(basis_at(p, j, log_n)));
    }
    acc
}

fn eval_at_secure(coeffs: &[M31], p: SecureCirclePoint, log_n: u32) -> QM31 {
    let two = QM31::from_base(fe(2));
    let one = QM31::one();
    let mut acc = QM31::zero();
    for (j, c) in coeffs.iter().enumerate() {
        let mut basis = one;
        if j & 1 == 1 {
            basis = basis.mul(p.y);
        }
        let mut cur = p.x;
        for bit in 1..log_n {
            if (j >> bit) & 1 == 1 {
                basis = basis.mul(cur);
            }
            cur = two.mul(cur).mul(cur).sub(one);
        }
        acc = acc.add(basis.scale(*c));
    }
    acc
}

/// Whether the values over the domain (natural order) lie in the span of the
/// first `dim` circle-FFT basis functions: Gaussian elimination over the
/// base field on the basis-evaluation matrix augmented with the values.
fn in_low_degree_space(values: &[M31], points: &[CirclePoint], dim: usize, log_n: u32) -> bool {
    let n = values.len();
    let mut rows: Vec<Vec<M31>> = Vec::new();
    for i in 0..n {
        let mut row: Vec<M31> = (0..dim).map(|j| basis_at(points[i], j, log_n)).collect();
        row.push(values[i]);
        rows.push(row);
    }
    let mut r0 = 0;
    for col in 0..dim {
        let mut pivot = None;
        for r in r0..n {
            if rows[r][col].v != 0 {
                pivot = Some(r);
                break;
            }
        }
        let Some(pr) = pivot else { continue };
        rows.swap(r0, pr);
        let inv = m31_inv(rows[r0][col]);
        for k in col..=dim {
            rows[r0][k] = rows[r0][k].mul(inv);
        }
        for r in 0..n {
            if r != r0 && rows[r][col].v != 0 {
                let factor = rows[r][col];
                for k in col..=dim {
                    let delta = factor.mul(rows[r0][k]);
                    rows[r][k] = rows[r][k].sub(delta);
                }
            }
        }
        r0 += 1;
    }
    // Consistent exactly when no eliminated row keeps a nonzero value.
    rows.iter()
        .all(|row| row[..dim].iter().any(|c| c.v != 0) || row[dim].v == 0)
}

fn quotient_first_coordinate(perturb: bool) -> (Vec<M31>, Vec<CirclePoint>) {
    const LOG_SIZE: u32 = 7;
    let polynomial: Vec<M31> = (0..1u32 << LOG_SIZE).map(fe).collect();
    let log_domain = LOG_SIZE + 1;
    let points = canonic_domain_points(log_domain);
    let n = points.len();
    let column: Vec<M31> = (0..n)
        .map(|r| eval_at_base(&polynomial, points[bit_reverse_index(r, log_domain)], log_domain))
        .collect();
    let point = secure_sample_point(qm(1, 2, 3, 4));
    let mut value = eval_at_secure(&polynomial, point, log_domain);
    if perturb {
        value = value.add(QM31::one());
    }
    let coeff = qm(1, 2, 3, 4);
    let domain = CircleDomain::new(log_domain, points.clone()).unwrap();
    let quot_eval = accumulate_quotients(
        domain,
        &vec![column],
        coeff,
        &vec![ColumnSampleBatch {
            point,
            columns_and_values: vec![(0, value)],
        }],
    )
    .unwrap();
    let natural: Vec<M31> = (0..n)
        .map(|i| quot_eval.values[bit_reverse_index(i, log_domain)].x0)
        .collect();
    (natural, points)
}

#[test]
fn test_quotients_are_low_degree() {
    const LOG_SIZE: u32 = 7;
    let (natural, points) = quotient_first_coordinate(false);
    assert!(in_low_degree_space(
        &natural,
        &points,
        1usize << LOG_SIZE,
        LOG_SIZE + 1,
    ));
}

#[test]
fn perturbed_claim_is_not_low_degree() {
    const LOG_SIZE: u32 = 7;
    let (natural, points) = quotient_first_coordinate(true);
    assert!(!in_low_degree_space(
        &natural,
        &points,
        1usize << LOG_SIZE,
        LOG_SIZE + 1,
    ));
}
