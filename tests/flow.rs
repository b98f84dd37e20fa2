use snarky::backend::RcBls12_381;
use snarky::constraints::ConstraintSystem;
use snarky::flow::{update, verify, verify_naive, verify_with, Phase, Verification};
use snarky::prover::BatchProof;
use snarky::srs::{Trapdoor, SRS};

fn run_setup(qap: &ConstraintSystem, trapdoor: &str) -> (SRS, Trapdoor) {
    match trapdoor {
        "given" => SRS::setup(qap, Some(Trapdoor::from_u64(1, 2, 3, 4))),
        "random" => SRS::setup_with_random_trapdoor(qap),
        "unit" => SRS::setup_with_unit_trapdoor(qap),
        _ => panic!("Trapdoor generation unspecified"),
    }
}

fn corrupt(batch: &mut BatchProof, comp: usize, index: usize) {
    let g = RcBls12_381::genG1();
    match comp {
        1 => {
            let val = batch.batch_1[index][0].com.0;
            batch.batch_1[index][0].com.0 = RcBls12_381::add1(&[val, g]);
        }
        2 => {
            let val = batch.batch_2[index].com.0;
            batch.batch_2[index].com.0 = RcBls12_381::add1(&[val, g]);
        }
        _ => panic!("Batch component may be either 1 or 2"),
    }
}

fn run_protocol(
    (m, n, l): (usize, usize, usize),
    trapdoor: &str,
    (nr_1, cor_1): (usize, &str),
    (nr_2, cor_2): (usize, &str),
) -> Verification {
    let qap = ConstraintSystem::create_default(m, n, l).unwrap();
    let (mut srs, _trp) = run_setup(&qap, trapdoor);
    let mut batch = BatchProof::initiate();
    for _ in 0..nr_1 {
        update(&qap, &mut srs, &mut batch, Phase::ONE);
    }
    for _ in 0..nr_2 {
        update(&qap, &mut srs, &mut batch, Phase::TWO);
    }
    for (j, cor) in [cor_1, cor_2].iter().enumerate() {
        let comp = j + 1;
        let len = if comp == 1 { nr_1 } else { nr_2 };
        match *cor {
            "all" => {
                for i in 0..len {
                    corrupt(&mut batch, comp, i);
                }
            }
            "almost all" => {
                for i in 0..len - 1 {
                    corrupt(&mut batch, comp, i);
                }
            }
            "one" => corrupt(&mut batch, comp, len - 1),
            _ => {}
        }
    }
    let res = verify(&qap, &srs, &batch);
    assert_eq!(verify_naive(&qap, &srs, &batch), res);
    res
}

#[test]
fn test_success_without_updates() {
    let res = run_protocol((5, 4, 3), "random", (0, "ok"), (0, "ok"));
    assert_eq!(res.as_bool(), true);
}

#[test]
fn test_success_with_given_trapdoor() {
    let res = run_protocol((5, 4, 3), "given", (1, "ok"), (1, "ok"));
    assert_eq!(res.as_bool(), true);
}

#[test]
fn test_success_with_random_trapdoor() {
    let res = run_protocol((5, 4, 3), "random", (1, "ok"), (1, "ok"));
    assert_eq!(res.as_bool(), true);
}

#[test]
fn test_success_with_unit_trapdoor() {
    let res = run_protocol((5, 4, 3), "unit", (1, "ok"), (1, "ok"));
    assert_eq!(res.as_bool(), true);
}

#[test]
fn test_failure_with_one_phase_1_proof_tampered() {
    let res = run_protocol((5, 4, 3), "unit", (2, "one"), (1, "ok"));
    assert_eq!(res.as_bool(), false);
}

#[test]
fn test_failure_with_all_phase_1_proofs_tampered() {
    let res = run_protocol((5, 4, 3), "unit", (2, "all"), (1, "ok"));
    assert_eq!(res.as_bool(), false);
}

#[test]
fn test_failure_with_one_phase_2_proof_tampered() {
    let res = run_protocol((5, 4, 3), "unit", (1, "ok"), (2, "one"));
    assert_eq!(res.as_bool(), false);
}

#[test]
fn test_failure_with_all_phase_2_proofs_tampered() {
    let res = run_protocol((5, 4, 3), "unit", (1, "ok"), (2, "all"));
    assert_eq!(res.as_bool(), false);
}

#[test]
fn test_failure_with_all_but_one_phase_1_proof_tampered() {
    let res = run_protocol((5, 4, 3), "unit", (5, "almost all"), (5, "all"));
    assert_eq!(res.as_bool(), false);
}

#[test]
fn test_failure_with_all_but_one_phase_2_proof_tampered() {
    let res = run_protocol((5, 4, 3), "unit", (5, "all"), (5, "almost all"));
    assert_eq!(res.as_bool(), false);
}

#[test]
fn test_flow() {
    let qap = ConstraintSystem::create_default(5, 4, 3).unwrap();
    let (mut srs, _) = SRS::setup(&qap, Some(Trapdoor::create_from_units()));
    let mut batch = BatchProof::initiate();
    update(&qap, &mut srs, &mut batch, Phase::ONE);
    update(&qap, &mut srs, &mut batch, Phase::TWO);
    assert!(verify(&qap, &srs, &batch).as_bool());
}

#[test]
fn given_trapdoor_then_tampered_phase_1_commitment_fails() {
    let qap = ConstraintSystem::create_default(5, 4, 3).unwrap();
    let (mut srs, _) = SRS::setup(&qap, Some(Trapdoor::from_u64(1, 2, 3, 4)));
    let mut batch = BatchProof::initiate();
    update(&qap, &mut srs, &mut batch, Phase::ONE);
    update(&qap, &mut srs, &mut batch, Phase::TWO);
    assert_eq!(verify(&qap, &srs, &batch), Verification::SUCCESS);
    corrupt(&mut batch, 1, 0);
    assert_eq!(verify(&qap, &srs, &batch), Verification::FAILURE);
    assert_eq!(verify_naive(&qap, &srs, &batch), Verification::FAILURE);
}

#[test]
fn given_trapdoor_then_tampered_phase_2_commitment_fails() {
    let qap = ConstraintSystem::create_default(5, 4, 3).unwrap();
    let (mut srs, _) = SRS::setup(&qap, Some(Trapdoor::from_u64(1, 2, 3, 4)));
    let mut batch = BatchProof::initiate();
    update(&qap, &mut srs, &mut batch, Phase::ONE);
    update(&qap, &mut srs, &mut batch, Phase::TWO);
    corrupt(&mut batch, 2, 0);
    assert_eq!(verify(&qap, &srs, &batch), Verification::FAILURE);
    assert_eq!(verify_naive(&qap, &srs, &batch), Verification::FAILURE);
}

#[test]
fn unit_trapdoor_without_updates_verifies() {
    let qap = ConstraintSystem::create_default(5, 4, 3).unwrap();
    let (srs, _) = SRS::setup_with_unit_trapdoor(&qap);
    let batch = BatchProof::initiate();
    assert_eq!(verify_naive(&qap, &srs, &batch), Verification::SUCCESS);
    let s = (1..8u64).map(RcBls12_381::scalar).collect::<Vec<_>>();
    assert_eq!(verify_with(&qap, &srs, &batch, &s), Verification::SUCCESS);
}

#[test]
fn tampered_aux_in_the_middle_fails() {
    let qap = ConstraintSystem::create_default(3, 2, 1).unwrap();
    let (mut srs, _) = SRS::setup_with_unit_trapdoor(&qap);
    let mut batch = BatchProof::initiate();
    for _ in 0..3 {
        update(&qap, &mut srs, &mut batch, Phase::TWO);
    }
    assert_eq!(verify_naive(&qap, &srs, &batch), Verification::SUCCESS);
    let g = RcBls12_381::genG1();
    batch.batch_2[1].aux = RcBls12_381::add1(&[batch.batch_2[1].aux, g]);
    assert_eq!(verify_naive(&qap, &srs, &batch), Verification::FAILURE);
    assert_eq!(verify(&qap, &srs, &batch), Verification::FAILURE);
}

#[test]
fn tampered_sigma_fails() {
    let qap = ConstraintSystem::create_default(3, 2, 1).unwrap();
    let (mut srs, _) = SRS::setup_with_unit_trapdoor(&qap);
    let mut batch = BatchProof::initiate();
    update(&qap, &mut srs, &mut batch, Phase::ONE);
    update(&qap, &mut srs, &mut batch, Phase::ONE);
    let g = RcBls12_381::genG1();
    batch.batch_1[0][2].prf = RcBls12_381::add1(&[batch.batch_1[0][2].prf, g]);
    assert_eq!(verify_naive(&qap, &srs, &batch), Verification::FAILURE);
    assert_eq!(verify(&qap, &srs, &batch), Verification::FAILURE);
}

#[test]
fn verification_as_bool() {
    assert!(Verification::SUCCESS.as_bool());
    assert!(!Verification::FAILURE.as_bool());
    assert_eq!(Verification::from_bool(true), Verification::SUCCESS);
    assert_eq!(Verification::from_bool(false), Verification::FAILURE);
}

#[test]
fn random_trapdoor_with_all_but_last_phase_1_aux_tampered_fails() {
    let qap = ConstraintSystem::create_default(5, 4, 3).unwrap();
    let (mut srs, _) = SRS::setup_with_random_trapdoor(&qap);
    let mut batch = BatchProof::initiate();
    for _ in 0..5 {
        update(&qap, &mut srs, &mut batch, Phase::ONE);
    }
    for _ in 0..5 {
        update(&qap, &mut srs, &mut batch, Phase::TWO);
    }
    assert_eq!(verify(&qap, &srs, &batch), Verification::SUCCESS);
    let g = RcBls12_381::genG1();
    for i in 0..4 {
        for j in 0..3 {
            batch.batch_1[i][j].aux = RcBls12_381::add1(&[batch.batch_1[i][j].aux, g]);
        }
    }
    assert_eq!(verify(&qap, &srs, &batch), Verification::FAILURE);
}
