use bls12_381::{pairing, G1Affine, G2Affine, Scalar};
use snarky::backend::RcBls12_381;

fn sc(n: u64) -> Scalar {
    RcBls12_381::scalar(n)
}

fn pow_table() -> Vec<((u64, usize), u64)> {
    vec![
        ((0, 0), 1), ((1, 0), 1), ((2, 0), 1), ((3, 0), 1), ((7, 0), 1),
        ((0, 1), 0), ((1, 1), 1), ((2, 1), 2), ((3, 1), 3), ((7, 1), 7),
        ((0, 2), 0), ((1, 2), 1), ((2, 2), 4), ((3, 2), 9), ((7, 2), 49),
        ((0, 3), 0), ((1, 3), 1), ((2, 3), 8), ((3, 3), 27), ((7, 3), 343),
        ((0, 4), 0),
    ]
}

fn mult_table() -> Vec<(u64, u64)> {
    vec![
        (0, 0), (0, 1), (0, 2), (0, 100),
        (1, 0), (1, 1), (1, 2), (1, 100),
        (2, 0), (2, 1), (2, 2), (2, 100),
        (7, 0), (7, 1), (7, 2), (7, 100),
        (9, 0), (9, 1), (9, 2), (9, 100),
        (666, 0), (666, 1), (666, 2), (666, 100),
    ]
}

fn pair_table() -> Vec<(u64, u64)> {
    vec![
        (0, 0), (0, 1), (1, 0), (1, 1),
        (1, 2), (2, 1), (2, 2), (3, 2),
        (2, 3), (3, 3), (4, 3), (3, 4),
        (666, 999), (999, 666), (666, 0), (0, 666),
    ]
}

#[test]
fn rc_bls12_381_test_scalar() {
    for &num in &[0u64, 1, 2, 10, 666] {
        assert_eq!(Scalar::from(num), RcBls12_381::scalar(num));
    }
}

#[test]
fn rc_bls12_381_test_zero() {
    assert_eq!(Scalar::from(0), RcBls12_381::zero());
    assert_ne!(Scalar::from(1), RcBls12_381::zero());
}

#[test]
fn rc_bls12_381_test_one() {
    assert_eq!(Scalar::from(1), RcBls12_381::one());
    assert_ne!(Scalar::from(0), RcBls12_381::one());
}

#[test]
fn test_inv() {
    for num in vec![1u64, 2, 10, 666] {
        let s = RcBls12_381::scalar(num);
        assert_eq!(s.invert().unwrap(), RcBls12_381::inv(&s));
    }
}

#[test]
fn rc_bls12_381_test_pow() {
    for ((base, exp), result) in pow_table() {
        assert_eq!(RcBls12_381::pow(&RcBls12_381::scalar(base), exp), RcBls12_381::scalar(result));
    }
}

#[test]
fn rc_bls12_381_test_genG1() {
    assert_eq!(G1Affine::generator(), RcBls12_381::genG1());
}

#[test]
fn rc_bls12_381_test_genG2() {
    assert_eq!(G2Affine::generator(), RcBls12_381::genG2());
}

#[test]
fn rc_bls12_381_test_zeroG1() {
    assert_eq!(G1Affine::default(), RcBls12_381::zeroG1());
}

#[test]
fn rc_bls12_381_test_zeroG2() {
    assert_eq!(G2Affine::default(), RcBls12_381::zeroG2());
}

#[test]
fn test_contained_in_G1() {
    let g = RcBls12_381::genG1();
    for &factor in &[0u64, 1, 2, 7, 11, 666, 389473847] {
        let elem = RcBls12_381::smul1(&RcBls12_381::scalar(factor), &g);
        assert!(RcBls12_381::contained_in_G1(&elem));
    }
}

#[test]
fn test_contained_in_G2() {
    let h = RcBls12_381::genG2();
    for &factor in &[0u64, 1, 2, 7, 11, 666, 389473847] {
        let elem = RcBls12_381::smul2(&RcBls12_381::scalar(factor), &h);
        assert!(RcBls12_381::contained_in_G2(&elem));
    }
}

#[test]
fn rc_bls12_381_test_bytes1() {
    let mut expected: [u8; 96] = [0; 96];
    expected[0] = 64;
    assert_eq!(RcBls12_381::bytes1(&RcBls12_381::zeroG1()), expected);
}

#[test]
fn rc_bls12_381_test_bytes2() {
    let mut expected: [u8; 96] = [0; 96];
    expected[0] = 192;
    assert_eq!(RcBls12_381::bytes2(&RcBls12_381::zeroG2()), expected);
}

#[test]
fn test_ct_eq() {
    let elm1 = RcBls12_381::scalar(0);
    let elm2 = RcBls12_381::scalar(0);
    let elm3 = RcBls12_381::scalar(1);
    assert!(RcBls12_381::ct_eq(&elm1, &elm2));
    assert!(!RcBls12_381::ct_eq(&elm1, &elm3));
}

#[test]
fn test_ct_ne() {
    let elm1 = RcBls12_381::scalar(0);
    let elm2 = RcBls12_381::scalar(0);
    let elm3 = RcBls12_381::scalar(1);
    assert!(RcBls12_381::ct_ne(&elm1, &elm3));
    assert!(!RcBls12_381::ct_ne(&elm1, &elm2));
}

fn check_add1() {
    let g = RcBls12_381::genG1();
    let m = |k: u64| RcBls12_381::smul1(&sc(k), &g);
    assert_eq!(RcBls12_381::add1(&[]), RcBls12_381::zeroG1());
    assert_eq!(RcBls12_381::add1(&[g]), g);
    assert_eq!(RcBls12_381::add1(&[g, g]), m(2));
    assert_eq!(RcBls12_381::add1(&[g, g, g]), m(3));
    assert_eq!(RcBls12_381::add1(&[m(2), g]), m(3));
    assert_eq!(RcBls12_381::add1(&[g, m(2)]), m(3));
    assert_eq!(RcBls12_381::add1(&[g, g, g, g]), m(4));
    assert_eq!(RcBls12_381::add1(&[m(3), g]), m(4));
    assert_eq!(RcBls12_381::add1(&[g, m(3)]), m(4));
    assert_eq!(RcBls12_381::add1(&[m(2), m(2)]), m(4));
}

fn check_add2() {
    let h = RcBls12_381::genG2();
    let m = |k: u64| RcBls12_381::smul2(&sc(k), &h);
    assert_eq!(RcBls12_381::add2(&[]), RcBls12_381::zeroG2());
    assert_eq!(RcBls12_381::add2(&[h]), h);
    assert_eq!(RcBls12_381::add2(&[h, h]), m(2));
    assert_eq!(RcBls12_381::add2(&[h, h, h]), m(3));
    assert_eq!(RcBls12_381::add2(&[m(2), h]), m(3));
    assert_eq!(RcBls12_381::add2(&[h, m(2)]), m(3));
    assert_eq!(RcBls12_381::add2(&[h, h, h, h]), m(4));
    assert_eq!(RcBls12_381::add2(&[m(3), h]), m(4));
    assert_eq!(RcBls12_381::add2(&[h, m(3)]), m(4));
    assert_eq!(RcBls12_381::add2(&[m(2), m(2)]), m(4));
}

#[test]
fn rc_bls12_381_test_add1() {
    check_add1();
}

#[test]
fn rc_bls12_381_test_add2() {
    check_add2();
}

#[test]
fn test_group_operations_test_add1() {
    check_add1();
}

#[test]
fn test_group_operations_test_add2() {
    check_add2();
}

#[test]
fn test_operations_test_add1() {
    check_add1();
}

#[test]
fn test_operations_test_add2() {
    check_add2();
}

#[test]
fn test_add_1() {
    check_add1();
}

#[test]
fn test_add_2() {
    check_add2();
}

fn check_smul1() {
    for (f1, f2) in mult_table() {
        let a = RcBls12_381::smul1(&RcBls12_381::scalar(f1), &RcBls12_381::genG1());
        let b = RcBls12_381::smul1(&RcBls12_381::scalar(f2), &a);
        assert_eq!(G1Affine::from(G1Affine::generator() * Scalar::from(f1)), a);
        assert_eq!(G1Affine::from(a * Scalar::from(f2)), b);
    }
}

fn check_smul2() {
    for (f1, f2) in mult_table() {
        let a = RcBls12_381::smul2(&RcBls12_381::scalar(f1), &RcBls12_381::genG2());
        let b = RcBls12_381::smul2(&RcBls12_381::scalar(f2), &a);
        assert_eq!(G2Affine::from(G2Affine::generator() * Scalar::from(f1)), a);
        assert_eq!(G2Affine::from(a * Scalar::from(f2)), b);
    }
}

#[test]
fn rc_bls12_381_test_smul1() {
    check_smul1();
}

#[test]
fn rc_bls12_381_test_smul2() {
    check_smul2();
}

#[test]
fn test_mult_1() {
    check_smul1();
}

#[test]
fn test_mult_2() {
    check_smul2();
}

fn check_pair() {
    for (f1, f2) in pair_table() {
        let left = RcBls12_381::smul1(&RcBls12_381::scalar(f1), &RcBls12_381::genG1());
        let right = RcBls12_381::smul2(&RcBls12_381::scalar(f2), &RcBls12_381::genG2());
        assert_eq!(RcBls12_381::pair(&left, &right), pairing(&left, &right));
    }
}

#[test]
fn rc_bls12_381_test_pair() {
    check_pair();
}

#[test]
fn backend_test_pair() {
    check_pair();
}

#[test]
fn backend_test_scalar() {
    for value in vec![0u64, 1, 666] {
        assert_eq!(Scalar::from(value), RcBls12_381::scalar(value));
    }
}

#[test]
fn backend_test_zero() {
    assert_eq!(Scalar::from(0), RcBls12_381::zero());
    assert_ne!(Scalar::from(1), RcBls12_381::zero());
}

#[test]
fn backend_test_one() {
    assert_eq!(Scalar::from(1), RcBls12_381::one());
    assert_ne!(Scalar::from(0), RcBls12_381::one());
}

#[test]
fn backend_test_pow() {
    for ((base, exp), result) in pow_table() {
        assert_eq!(RcBls12_381::pow(&sc(base), exp), sc(result));
    }
}

#[test]
fn test_scalars_test_pow() {
    for ((base, exp), result) in pow_table() {
        assert_eq!(RcBls12_381::pow(&sc(base), exp), sc(result));
    }
}

fn check_contained_in_group() {
    let g = RcBls12_381::genG1();
    let h = RcBls12_381::genG2();
    for &factor in &[0u64, 1, 2, 7, 11, 666, 389473847] {
        let f = sc(factor);
        assert!(RcBls12_381::contained_in_G1(&RcBls12_381::smul1(&f, &g)));
        assert!(RcBls12_381::contained_in_G2(&RcBls12_381::smul2(&f, &h)));
    }
}

#[test]
fn backend_test_contained_in_group() {
    check_contained_in_group();
}

#[test]
fn test_group_test_contained_in_group() {
    check_contained_in_group();
}

#[test]
fn test_group_elements_test_contained_in_group() {
    check_contained_in_group();
}

fn check_ct_comparisons() {
    let elm1 = sc(0);
    let elm2 = sc(0);
    let elm3 = sc(1);
    assert!(RcBls12_381::ct_eq(&elm1, &elm2));
    assert!(RcBls12_381::ct_ne(&elm1, &elm3));
    assert!(!RcBls12_381::ct_eq(&elm1, &elm3));
    assert!(!RcBls12_381::ct_ne(&elm1, &elm2));
}

#[test]
fn test_group_test_ct_comparisons() {
    check_ct_comparisons();
}

#[test]
fn test_group_elements_test_ct_comparisons() {
    check_ct_comparisons();
}

#[test]
fn test_G1_gen() {
    assert_eq!(G1Affine::generator(), RcBls12_381::genG1());
}

#[test]
fn test_G2_gen() {
    assert_eq!(G2Affine::generator(), RcBls12_381::genG2());
}

#[test]
fn test_G1_zero() {
    assert_eq!(G1Affine::from(G1Affine::generator() * Scalar::zero()), RcBls12_381::zeroG1());
}

#[test]
fn test_G2_zero() {
    assert_eq!(G2Affine::from(G2Affine::generator() * Scalar::zero()), RcBls12_381::zeroG2());
}

#[test]
fn test_bytes_1() {
    let mut expected: [u8; 96] = [0; 96];
    expected[0] = 64;
    assert!(RcBls12_381::bytes1(&RcBls12_381::zeroG1()) == expected);
}

#[test]
fn test_bytes_2() {
    let mut expected: [u8; 96] = [0; 96];
    expected[0] = 192;
    assert!(RcBls12_381::bytes2(&RcBls12_381::zeroG2()) == expected);
}

#[test]
fn smul1_of_zero_one_and_sums() {
    let g = RcBls12_381::genG1();
    assert_eq!(RcBls12_381::smul1(&sc(0), &g), RcBls12_381::zeroG1());
    assert_eq!(RcBls12_381::smul1(&sc(1), &g), g);
    let k = RcBls12_381::smul1(&sc(12), &g);
    let j = RcBls12_381::smul1(&sc(30), &g);
    assert_eq!(RcBls12_381::add1(&[k, j]), RcBls12_381::smul1(&sc(42), &g));
}

#[test]
fn pairing_is_bilinear_on_seven_and_nine() {
    let g = RcBls12_381::genG1();
    let h = RcBls12_381::genG2();
    let left = RcBls12_381::pair(&RcBls12_381::smul1(&sc(7), &g), &RcBls12_381::smul2(&sc(9), &h));
    let right = RcBls12_381::pair(&g, &RcBls12_381::smul2(&sc(63), &h));
    assert!(RcBls12_381::ct_eq_t(&left, &right));
    let wrong = RcBls12_381::pair(&g, &RcBls12_381::smul2(&sc(64), &h));
    assert!(!RcBls12_381::ct_eq_t(&left, &wrong));
}

#[test]
fn hash_to_g1_is_deterministic_and_in_group() {
    let bytes = vec![1u8, 2, 3, 4];
    let p = RcBls12_381::hashG1(&bytes);
    let q = RcBls12_381::hashG1(&bytes);
    assert_eq!(p, q);
    assert!(RcBls12_381::contained_in_G1(&p));
    let other = RcBls12_381::hashG1(&vec![1u8, 2, 3, 5]);
    assert_ne!(p, other);
    assert_ne!(p, RcBls12_381::genG1());
}

#[test]
fn pow_of_two_and_seven() {
    assert_eq!(RcBls12_381::pow(&sc(2), 10), sc(1024));
    assert_eq!(RcBls12_381::pow(&sc(7), 3), sc(343));
}

#[test]
fn scalar_arithmetic() {
    assert_eq!(RcBls12_381::add(&sc(2), &sc(3)), sc(5));
    assert_eq!(RcBls12_381::mul(&sc(6), &sc(7)), sc(42));
    assert_eq!(RcBls12_381::mul(&sc(5), &RcBls12_381::inv(&sc(5))), sc(1));
}
