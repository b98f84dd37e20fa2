use snarky::backend::RcBls12_381;
use snarky::prover::{Dlog, ProofError, RhoProof};

fn sc(n: u64) -> bls12_381::Scalar {
    RcBls12_381::scalar(n)
}

#[test]
fn dlog_test_dlog_proof() {
    let cases = vec![
        ((100u64, 100u64, 100u64), true),
        ((666, 100, 100), false),
        ((100, 666, 100), false),
        ((100, 100, 666), false),
    ];
    for ((f1, f2, w), expected) in cases {
        let g = RcBls12_381::genG1();
        let h = RcBls12_381::genG2();
        let commit = (RcBls12_381::smul1(&sc(f1), &g), RcBls12_381::smul2(&sc(f2), &h));
        let proof = Dlog::prove(&commit, sc(w));
        if expected {
            assert!(Dlog::verify((&g, &h), &commit, &proof).unwrap());
        } else {
            assert_eq!(Dlog::verify((&g, &h), &commit, &proof).unwrap_err(), ProofError::DlogFailure);
        }
    }
}

#[test]
fn rndoracle_depends_on_the_commitment() {
    let g = RcBls12_381::genG1();
    let h = RcBls12_381::genG2();
    let c1 = (RcBls12_381::smul1(&sc(3), &g), RcBls12_381::smul2(&sc(3), &h));
    let c2 = (RcBls12_381::smul1(&sc(4), &g), RcBls12_381::smul2(&sc(4), &h));
    assert_eq!(Dlog::rndoracle(&c1), Dlog::rndoracle(&c1));
    assert_ne!(Dlog::rndoracle(&c1), Dlog::rndoracle(&c2));
    assert!(RcBls12_381::contained_in_G1(&Dlog::rndoracle(&c1)));
}

#[test]
fn rho_proofs_chain() {
    let g = RcBls12_381::genG1();
    let h = RcBls12_381::genG2();
    let first = RhoProof::create((&g, &h), &g, &sc(5));
    let second = RhoProof::create((&g, &h), &first.aux, &sc(9));
    assert!(first.verify((&g, &h), None).unwrap());
    assert!(second.verify((&g, &h), Some(&first)).unwrap());
    assert_eq!(first.aux, RcBls12_381::smul1(&sc(5), &g));
    assert_eq!(second.aux, RcBls12_381::smul1(&sc(45), &g));
    let unrelated = RhoProof::create((&g, &h), &g, &sc(7));
    assert_eq!(second.verify((&g, &h), Some(&unrelated)).unwrap_err(), ProofError::RhoFailure);
    let mut forged = second;
    forged.prf = RcBls12_381::add1(&[forged.prf, g]);
    assert_eq!(forged.verify((&g, &h), Some(&first)).unwrap_err(), ProofError::RhoFailure);
}
