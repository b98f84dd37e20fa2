use snarky::constraints::{ConstraintSystem, QAP};
use snarky::polynomial::Univariate;

fn from_range(lo: u64, hi: u64) -> Univariate {
    Univariate::create_from_u64(&(lo..hi).collect::<Vec<u64>>())
}

fn collections(m: usize, n: usize, default: bool) -> (Vec<Univariate>, Vec<Univariate>, Vec<Univariate>, Univariate) {
    let mut u = Vec::new();
    let mut v = Vec::new();
    let mut w = Vec::new();
    let t;
    if default {
        let mut coeffs1 = vec![1u64];
        coeffs1.append(&mut vec![0; n - 1]);
        let mut coeffs2 = vec![1u64];
        coeffs2.append(&mut vec![0; n]);
        for _ in 0..m + 1 {
            u.push(Univariate::create_from_u64(&coeffs1));
            v.push(Univariate::create_from_u64(&coeffs1));
            w.push(Univariate::create_from_u64(&coeffs1));
        }
        t = Univariate::create_from_u64(&coeffs2);
    } else {
        for _ in 0..m + 1 {
            u.push(from_range(0, n as u64));
            v.push(from_range(1, n as u64 + 1));
            w.push(from_range(2, n as u64 + 2));
        }
        t = from_range(0, n as u64 + 1);
    }
    (u, v, w, t)
}

#[test]
fn constraints_test_QAP_creation() {
    let (m, n, l): (usize, usize, usize) = (5, 4, 3);
    let (u1, v1, w1, t1) = collections(m, n, false);
    let (u, v, w, t) = collections(m, n, false);
    assert_eq!(QAP::create(u1, v1, w1, t1, l).unwrap(), QAP { m, n, l, u, v, w, t });
}

#[test]
fn test_qap_test_QAP_creation() {
    let (m, n, l): (usize, usize, usize) = (5, 4, 3);
    let (u1, v1, w1, t1) = collections(m, n, false);
    let (u, v, w, t) = collections(m, n, false);
    assert_eq!(ConstraintSystem::create(u1, v1, w1, t1, l).unwrap(), ConstraintSystem { m, n, l, u, v, w, t });
}

#[test]
fn test_QAPError_with_code_101() {
    let (m, n, l) = (5, 4, 3);
    let u = vec![Univariate::create_from_u64(&vec![0; n]); m];
    let v = vec![Univariate::create_from_u64(&vec![0; n]); m + 1];
    let w = vec![Univariate::create_from_u64(&vec![0; n]); m + 1];
    let t = Univariate::create_from_u64(&vec![0; n + 1]);
    let result = QAP::create(u, v, w, t, l);
    assert!(result.is_err());
    assert_eq!(result.unwrap_err().code, 101);
}

#[test]
fn test_QAPError_with_code_102() {
    let (m, n, l) = (3, 4, 3);
    let u = vec![Univariate::create_from_u64(&vec![0; n]); m + 1];
    let v = vec![Univariate::create_from_u64(&vec![0; n]); m + 1];
    let w = vec![Univariate::create_from_u64(&vec![0; n]); m + 1];
    let t = Univariate::create_from_u64(&vec![0; n + 1]);
    let result = QAP::create(u, v, w, t, l);
    assert!(result.is_err());
    assert_eq!(result.unwrap_err().code, 102);
}

#[test]
fn test_QAPError_with_code_103() {
    let (m, n, l) = (5, 4, 3);
    let u = vec![Univariate::create_from_u64(&vec![0; n + 1]); m + 1];
    let v = vec![Univariate::create_from_u64(&vec![0; n]); m + 1];
    let w = vec![Univariate::create_from_u64(&vec![0; n]); m + 1];
    let t = Univariate::create_from_u64(&vec![0; n + 1]);
    let result = QAP::create(u, v, w, t, l);
    assert!(result.is_err());
    assert_eq!(result.unwrap_err().code, 103);
}

#[test]
fn constraints_test_QAP_default_creation() {
    let (m, n, l): (usize, usize, usize) = (5, 4, 3);
    let (u, v, w, t) = collections(m, n, true);
    assert_eq!(QAP::create_default(m, n, l).unwrap(), QAP { m, n, l, u, v, w, t });
}

#[test]
fn test_qap_test_QAP_default_creation() {
    let (m, n, l) = (5, 4, 3);
    let (u, v, w, t) = collections(m, n, true);
    assert_eq!(ConstraintSystem::create_default(m, n, l).unwrap(), ConstraintSystem { m, n, l, u, v, w, t });
}

#[test]
fn test_QAPError_upon_default_creation() {
    let result = QAP::create_default(3, 4, 3);
    assert!(result.is_err());
    assert_eq!(result.unwrap_err().code, 102);
}

#[test]
fn test_SnarkyError_with_code_101() {
    let (m, n, l) = (5, 4, 3);
    let (mut u, v, w, t) = collections(m, n, false);
    u.pop();
    let result = ConstraintSystem::create(u, v, w, t, l);
    assert!(result.is_err());
    assert_eq!(result.unwrap_err().code, 101);
}

#[test]
fn test_SnarkyError_with_code_102() {
    let (m, n, l) = (3, 4, 3);
    let (u, v, w, t) = collections(m, n, false);
    let result = ConstraintSystem::create(u, v, w, t, l);
    assert!(result.is_err());
    assert_eq!(result.unwrap_err().code, 102);
}

#[test]
fn test_SnarkyError_with_code_103() {
    let (m, n, l) = (5, 4, 3);
    let (mut u, v, w, t) = collections(m, n, false);
    u[0] = Univariate::create_from_u64(&vec![0; n + 1]);
    let result = ConstraintSystem::create(u, v, w, t, l);
    assert!(result.is_err());
    assert_eq!(result.unwrap_err().code, 103);
}

#[test]
fn test_SnarkyError_upon_default_creation() {
    let result = ConstraintSystem::create_default(3, 4, 3);
    assert!(result.is_err());
    assert_eq!(result.unwrap_err().code, 102);
}

#[test]
fn default_creation_keeps_its_shape() {
    for &(m, n, l) in &[(1usize, 1usize, 0usize), (5, 4, 3), (7, 2, 0), (4, 6, 3)] {
        let qap = QAP::create_default(m, n, l).unwrap();
        assert_eq!(qap.shape(), (m, n, l));
        assert_eq!(qap.dimensions(), (m, n, l));
        let (u, v, w, t) = qap.collections();
        assert_eq!(u.len(), m + 1);
        assert_eq!(v.len(), m + 1);
        assert_eq!(w.len(), m + 1);
        assert_eq!(t.degree(), n as isize);
    }
}

#[test]
fn unequal_lengths_are_reported_before_l() {
    let (m, n) = (3, 4);
    let (u, mut v, w, t) = collections(m, n, false);
    v.pop();
    assert_eq!(QAP::create(u, v, w, t, 7).unwrap_err().code, 101);
}

#[test]
fn constant_t_is_refused_with_103() {
    let (m, n, l) = (5, 1, 3);
    let (u, v, w, _) = collections(m, n, true);
    let t = Univariate::create_from_u64(&vec![1]);
    assert_eq!(QAP::create(u, v, w, t, l).unwrap_err().code, 103);
}
