use snarky::backend::RcBls12_381;
use snarky::polynomial::Univariate;

fn sc(n: u64) -> bls12_381::Scalar {
    RcBls12_381::scalar(n)
}

#[test]
fn polynomial_test_create() {
    let cases: Vec<Vec<u64>> = vec![vec![], vec![0], vec![0, 1], vec![0, 1, 2], vec![0, 1, 2, 3]];
    for coeffs in cases {
        let scalars = coeffs.iter().map(|&c| sc(c)).collect::<Vec<_>>();
        assert_eq!(
            Univariate::create(scalars.clone()),
            Univariate { coeffs: scalars, degree: coeffs.len() as isize - 1 },
        );
    }
}

fn check_degree() {
    let cases: Vec<(Vec<u64>, isize)> = vec![
        (vec![], -1),
        (vec![0], 0),
        (vec![0, 0], 1),
        (vec![0, 0, 0], 2),
        (vec![0, 0, 0, 0], 3),
    ];
    for (coeffs, degree) in cases {
        assert_eq!(Univariate::create_from_u64(&coeffs).degree(), degree);
    }
}

#[test]
fn polynomial_test_degree() {
    check_degree();
}

#[test]
fn test_univariate_test_degree() {
    check_degree();
}

#[test]
fn polynomial_test_coeff() {
    let cases: Vec<Vec<u64>> = vec![vec![0], vec![0, 1], vec![0, 1, 2], vec![0, 1, 2, 3]];
    for coeffs in cases {
        let poly = Univariate::create_from_u64(&coeffs);
        for i in 0..coeffs.len() {
            assert_eq!(poly.coeff(i), sc(i as u64));
        }
    }
}

#[test]
fn test_univariate_test_coeff() {
    let cases: Vec<Vec<u64>> = vec![
        vec![],
        vec![0],
        vec![0, 0],
        vec![1],
        vec![1, 0],
        vec![0, 1],
        vec![1, 0, 0],
        vec![1, 0, 1],
        vec![1, 1, 0],
        vec![1, 1, 1],
        vec![0, 1, 2],
        vec![0, 1, 2, 3],
    ];
    for coeffs in cases {
        let poly = Univariate::create_from_u64(&coeffs);
        for i in 0..coeffs.len() {
            assert_eq!(poly.coeff(i), sc(coeffs[i]));
        }
    }
}

fn eval_table() -> Vec<((Vec<u64>, u64), u64)> {
    vec![
        ((vec![0], 0), 0),
        ((vec![0], 1), 0),
        ((vec![1], 0), 1),
        ((vec![1], 1), 1),
        ((vec![1, 0], 0), 1),
        ((vec![1, 0], 1), 1),
        ((vec![0, 1], 0), 0),
        ((vec![0, 1], 1), 1),
        ((vec![1, 1], 0), 1),
        ((vec![1, 1], 1), 2),
        ((vec![1, 1], 2), 3),
        ((vec![1, 2, 3], 0), 1),
        ((vec![1, 2, 3], 1), 6),
        ((vec![1, 2, 3], 666), 1332001),
    ]
}

#[test]
fn test_eval() {
    let edge = Univariate::create(vec![]);
    for ((coeffs, elm), value) in eval_table() {
        assert_eq!(edge.evaluate(&sc(elm)).unwrap_err().code, 201);
        let poly = Univariate::create_from_u64(&coeffs);
        assert_eq!(poly.evaluate(&sc(elm)).unwrap(), sc(value));
    }
}

#[test]
fn test_evaluate() {
    for ((coeffs, elm), value) in eval_table() {
        let poly = Univariate::create_from_u64(&coeffs);
        assert_eq!(poly.evaluate(&sc(elm)).unwrap(), sc(value));
    }
}

#[test]
fn coeff_beyond_the_degree_is_zero() {
    let poly = Univariate::create_from_u64(&vec![4, 5]);
    assert_eq!(poly.coeff(2), sc(0));
    assert_eq!(poly.coeff(100), sc(0));
}
