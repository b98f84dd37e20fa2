//! The ceremony: contributors' updates and the verification of the final
//! SRS against its transcript.
use vstd::prelude::*;
use crate::backend::{invertible, order, fmul, g1_ok, g2_ok, in_g1, in_g2, log1, log2, scalar_value, RcBls12_381};
use crate::constraints::QAP;
use crate::prover::{
    appended, batch1_in_groups, proofs_for, chain_holds, chain_holds_batched, chain_in_groups, batched1_holds,
    lin, lincomb1, lincomb2, logs1, logs2, naive1_holds, pairings_agree, svalues, tail2_holds, BatchProof, UpdateProof, Witness,
};
use crate::srs::{has_shape, s2_sum, s3_sum, s_in_groups, srs_updated, u_in_groups, Trapdoor, SRS};
use bls12_381::{G1Affine, G2Affine, Scalar};

verus! {

/// The two phases of the ceremony.
#[derive(Debug, Clone, Copy, PartialEq, Eq, Structural)]
pub enum Phase {
    ONE,
    TWO,
}

/// The verdict of the verifier.
#[derive(Debug, Clone, Copy, PartialEq, Eq, Structural)]
pub enum Verification {
    FAILURE,
    SUCCESS,
}

impl Verification {
    /// `SUCCESS` as `true`, `FAILURE` as `false`.
    pub fn as_bool(&self) -> (r: bool)
        ensures
            r == (*self == Verification::SUCCESS),
    {
        match self {
            Verification::FAILURE => false,
            Verification::SUCCESS => true,
        }
    }

    /// The verdict for a boolean outcome.
    pub fn from_bool(b: bool) -> (r: Verification)
        ensures
            b ==> r == Verification::SUCCESS,
            !b ==> r == Verification::FAILURE,
    {
        if b {
            Verification::SUCCESS
        } else {
            Verification::FAILURE
        }
    }
}

/// The pairing equations inside `U`: for `1 <= i < 2n - 1`,
/// `e(U0[i].0, H) = e(G, U0[i].1) = e(U0[i-1].0, U0[1].1)`, and for `i < n`,
/// `e(U1[i].0, H) = e(G, U1[i].2) = e(U0[i].0, U1[0].2)` and the same for
/// `U1[i].1`, `U1[i].3`, `U1[0].3`.
pub open spec fn u_pairings_hold(srs: SRS, n: int) -> bool {
    let u0 = srs.u.0@;
    let u1 = srs.u.1@;
    &&& forall|i: int|
        1 <= i < 2 * n - 1 ==> fmul(log1((#[trigger] u0[i]).0), 1) == fmul(1, log2(u0[i].1))
            && fmul(log1(u0[i].0), 1) == fmul(log1(u0[i - 1].0), log2(u0[1].1))
    &&& forall|i: int|
        0 <= i < n ==> {
            &&& fmul(log1((#[trigger] u1[i]).0), 1) == fmul(1, log2(u1[i].2))
            &&& fmul(log1(u1[i].0), 1) == fmul(log1(u0[i].0), log2(u1[0].2))
            &&& fmul(log1(u1[i].1), 1) == fmul(1, log2(u1[i].3))
            &&& fmul(log1(u1[i].1), 1) == fmul(log1(u0[i].0), log2(u1[0].3))
        }
}

/// The pairing equations that tie `S` to `U` and the QAP: for `i < m - l`,
/// `e(S2[i], S.1) = e(sum_j u_i(j) U1[j].1 + v_i(j) U1[j].0 + w_i(j) U0[j].0, H)`,
/// and for `i < n - 1`, `e(S3[i], S.1) = e(sum_j t(j) U0[j].0, U0[i].1)`.
pub open spec fn s_pairings_hold(qap: QAP, srs: SRS) -> bool {
    &&& forall|i: int|
        0 <= i < qap.m - qap.l ==> fmul(log1(#[trigger] srs.s.2@[i]), log2(srs.s.1)) == fmul(
            s2_sum(qap, srs.u, i, qap.n as int),
            1,
        )
    &&& forall|i: int|
        0 <= i < qap.n - 1 ==> fmul(log1(#[trigger] srs.s.3@[i]), log2(srs.s.1)) == fmul(
            s3_sum(qap, srs.u, 0, qap.n as int),
            log2(srs.u.0@[i].1),
        )
}

/// Every check of the naive verifier passes.
pub open spec fn ceremony_holds_naive(qap: QAP, srs: SRS, batch: BatchProof) -> bool {
    &&& u_in_groups(srs.u, qap.n as int)
    &&& naive1_holds(srs, batch.batch_1@)
    &&& u_pairings_hold(srs, qap.n as int)
    &&& s_in_groups(srs.s, qap.m as int, qap.n as int, qap.l as int)
    &&& chain_holds(batch.batch_2@)
    &&& tail2_holds(srs, batch.batch_2@)
    &&& s_pairings_hold(qap, srs)
}

/// The initial SRS for the trapdoor.
pub fn setup(trapdoor: &Trapdoor, qap: &QAP) -> (r: SRS)
    requires
        qap.wf(),
        scalar_value(trapdoor.2) != 0,
    ensures
        SRS::is_initial(r, *qap, *trapdoor),
{
    SRS::create(trapdoor, qap)
}

/// One contributor's update with the given witness: the proofs are made on
/// the pre-update SRS and appended, then the SRS is rewritten.
pub fn update_with(qap: &QAP, srs: &mut SRS, batch: &mut BatchProof, witness: Witness)
    requires
        qap.wf(),
        qap.n >= 2,
        has_shape(*old(srs), *qap),
        witness is TWO ==> scalar_value(witness->TWO_0) != 0,
    ensures
        honest_update(*qap, *old(srs), *final(srs), *old(batch), *final(batch), witness),
{
    let proofs = UpdateProof::create(srs, &witness);
    let ghost made = proofs;
    batch.append(proofs);
    srs.update(qap, witness);
    assert(appended(*old(batch), *batch, made) && proofs_for(*old(srs), witness, made));
}

/// `after_srs` is `before_srs` rewritten with the witness, and `after_batch`
/// is `before_batch` with the honest proofs for that witness, made on
/// `before_srs`, appended to the list of their phase.
pub open spec fn honest_update(
    qap: QAP,
    before_srs: SRS,
    after_srs: SRS,
    before_batch: BatchProof,
    after_batch: BatchProof,
    w: Witness,
) -> bool {
    &&& srs_updated(before_srs, after_srs, qap, w)
    &&& exists|p: UpdateProof| appended(before_batch, after_batch, p) && proofs_for(before_srs, w, p)
}

/// The witness belongs to the phase, its scalars are canonical, and a
/// phase-two scalar is not zero.
pub open spec fn witness_fits(w: Witness, phase: Phase) -> bool {
    match w {
        Witness::ONE(a, b, x) => phase == Phase::ONE && 0 < scalar_value(a) < order() && 0
            < scalar_value(b) < order() && 0 < scalar_value(x) < order() && invertible(
            scalar_value(a),
        ) && invertible(scalar_value(b)) && invertible(scalar_value(x)),
        Witness::TWO(d) => phase == Phase::TWO && 0 < scalar_value(d) < order() && invertible(
            scalar_value(d),
        ),
    }
}

/// The update was made, honestly, with some witness of the phase.
pub open spec fn updated_in_phase(
    qap: QAP,
    before_srs: SRS,
    after_srs: SRS,
    before_batch: BatchProof,
    after_batch: BatchProof,
    phase: Phase,
) -> bool {
    exists|w: Witness|
        witness_fits(w, phase) && honest_update(qap, before_srs, after_srs, before_batch, after_batch, w)
}

/// One contributor's update in the given phase, with freshly sampled
/// non-zero scalars.
pub fn update(qap: &QAP, srs: &mut SRS, batch: &mut BatchProof, phase: Phase)
    requires
        qap.wf(),
        qap.n >= 2,
        has_shape(*old(srs), *qap),
    ensures
        has_shape(*final(srs), *qap),
        updated_in_phase(*qap, *old(srs), *final(srs), *old(batch), *final(batch), phase),
{
    let witness = match phase {
        Phase::ONE => Witness::ONE(RcBls12_381::runit(), RcBls12_381::runit(), RcBls12_381::runit()),
        Phase::TWO => Witness::TWO(RcBls12_381::runit()),
    };
    let ghost w = witness;
    update_with(qap, srs, batch, witness);
    assert(witness_fits(w, phase) && honest_update(*qap, *old(srs), *srs, *old(batch), *batch, w));
}

/// The pairing equations inside `U`, checked one by one.
fn check_u_pairings(srs: &SRS, n: usize) -> (r: bool)
    requires
        n >= 1,
        n <= isize::MAX,
        u_in_groups(srs.u, n as int),
    ensures
        r == u_pairings_hold(*srs, n as int),
{
    let g = RcBls12_381::genG1();
    let h = RcBls12_381::genG2();
    let u0 = &srs.u.0;
    let u1 = &srs.u.1;
    let mut ok = true;
    let mut i: usize = 1;
    while i < 2 * n - 1
        invariant
            n >= 1,
            n <= isize::MAX,
            u_in_groups(srs.u, n as int),
            *u0 == srs.u.0,
            g1_ok(g) && log1(g) == 1 && g2_ok(h) && log2(h) == 1,
            1 <= i <= 2 * n - 1,
            ok == forall|k: int|
                1 <= k < i ==> fmul(log1((#[trigger] u0@[k]).0), 1) == fmul(1, log2(u0@[k].1))
                    && fmul(log1(u0@[k].0), 1) == fmul(log1(u0@[k - 1].0), log2(u0@[1].1)),
        decreases 2 * n - 1 - i,
    {
        let c1 = pairings_agree(&u0[i].0, &h, &g, &u0[i].1);
        let c2 = pairings_agree(&u0[i].0, &h, &u0[i - 1].0, &u0[1].1);
        proof {
            assert(g1_ok(u0@[i as int].0) && g2_ok(u0@[i as int].1));
            assert(g1_ok(u0@[i - 1].0) && g2_ok(u0@[1].1));
        }
        ok = ok && c1 && c2;
        i = i + 1;
    }
    let mut i: usize = 0;
    while i < n
        invariant
            n >= 1,
            n <= isize::MAX,
            u_in_groups(srs.u, n as int),
            *u0 == srs.u.0 && *u1 == srs.u.1,
            g1_ok(g) && log1(g) == 1 && g2_ok(h) && log2(h) == 1,
            0 <= i <= n,
            ok == ((forall|k: int|
                1 <= k < 2 * n - 1 ==> fmul(log1((#[trigger] u0@[k]).0), 1) == fmul(1, log2(u0@[k].1))
                    && fmul(log1(u0@[k].0), 1) == fmul(log1(u0@[k - 1].0), log2(u0@[1].1)))
                && forall|k: int|
                0 <= k < i ==> {
                    &&& fmul(log1((#[trigger] u1@[k]).0), 1) == fmul(1, log2(u1@[k].2))
                    &&& fmul(log1(u1@[k].0), 1) == fmul(log1(u0@[k].0), log2(u1@[0].2))
                    &&& fmul(log1(u1@[k].1), 1) == fmul(1, log2(u1@[k].3))
                    &&& fmul(log1(u1@[k].1), 1) == fmul(log1(u0@[k].0), log2(u1@[0].3))
                }),
        decreases n - i,
    {
        let e = u1[i];
        let first = u1[0];
        let base = u0[i].0;
        proof {
            assert(g1_ok(u1@[i as int].0) && g1_ok(u1@[i as int].1) && g2_ok(u1@[i as int].2)
                && g2_ok(u1@[i as int].3));
            assert(g2_ok(u1@[0].2) && g2_ok(u1@[0].3));
            assert(g1_ok(u0@[i as int].0));
        }
        let c1 = pairings_agree(&e.0, &h, &g, &e.2);
        let c2 = pairings_agree(&e.0, &h, &base, &first.2);
        let c3 = pairings_agree(&e.1, &h, &g, &e.3);
        let c4 = pairings_agree(&e.1, &h, &base, &first.3);
        ok = ok && c1 && c2 && c3 && c4;
        i = i + 1;
    }
    ok
}

/// The pairing equations that tie `S` to `U` and the QAP, one by one.
fn check_s_pairings(qap: &QAP, srs: &SRS) -> (r: bool)
    requires
        qap.wf(),
        u_in_groups(srs.u, qap.n as int),
        s_in_groups(srs.s, qap.m as int, qap.n as int, qap.l as int),
    ensures
        r == s_pairings_hold(*qap, *srs),
{
    let (m, n, l) = qap.shape();
    let h = RcBls12_381::genG2();
    let mut ok = true;
    let mut i: usize = 0;
    while i < m - l
        invariant
            qap.wf(),
            m == qap.m && n == qap.n && l == qap.l,
            u_in_groups(srs.u, n as int),
            s_in_groups(srs.s, m as int, n as int, l as int),
            g2_ok(h) && log2(h) == 1,
            0 <= i <= m - l,
            ok == forall|k: int|
                0 <= k < i ==> fmul(log1(#[trigger] srs.s.2@[k]), log2(srs.s.1)) == fmul(
                    s2_sum(*qap, srs.u, k, n as int),
                    1,
                ),
        decreases m - l - i,
    {
        let sum = SRS::s2_entry(qap, &srs.u, i);
        proof {
            assert(g1_ok(srs.s.2@[i as int]));
        }
        let c = pairings_agree(&srs.s.2[i], &srs.s.1, &sum, &h);
        ok = ok && c;
        i = i + 1;
    }
    let gt = SRS::s3_entry(qap, &srs.u, 0);
    let mut j: usize = 0;
    while j < n - 1
        invariant
            qap.wf(),
            m == qap.m && n == qap.n && l == qap.l,
            u_in_groups(srs.u, n as int),
            s_in_groups(srs.s, m as int, n as int, l as int),
            g1_ok(gt) && log1(gt) == s3_sum(*qap, srs.u, 0, n as int),
            0 <= j <= n - 1,
            ok == ((forall|k: int|
                0 <= k < m - l ==> fmul(log1(#[trigger] srs.s.2@[k]), log2(srs.s.1)) == fmul(
                    s2_sum(*qap, srs.u, k, n as int),
                    1,
                )) && forall|k: int|
                0 <= k < j ==> fmul(log1(#[trigger] srs.s.3@[k]), log2(srs.s.1)) == fmul(
                    s3_sum(*qap, srs.u, 0, n as int),
                    log2(srs.u.0@[k].1),
                )),
        decreases n - 1 - j,
    {
        proof {
            assert(g1_ok(srs.s.3@[j as int]));
            assert(g2_ok(srs.u.0@[j as int].1));
        }
        let c = pairings_agree(&srs.s.3[j], &srs.s.1, &gt, &srs.u.0[j].1);
        ok = ok && c;
        j = j + 1;
    }
    ok
}

/// Checks the SRS and the whole transcript, every proof and every pairing
/// equation one by one.
pub fn verify_naive(qap: &QAP, srs: &SRS, batch: &BatchProof) -> (r: Verification)
    requires
        qap.wf(),
    ensures
        batch1_in_groups(batch.batch_1@) && chain_in_groups(batch.batch_2@) ==> (r
            == Verification::SUCCESS <==> ceremony_holds_naive(*qap, *srs, *batch)),
        !u_in_groups(srs.u, qap.n as int) || !s_in_groups(srs.s, qap.m as int, qap.n as int, qap.l as int)
            ==> r == Verification::FAILURE,
{
    let n = qap.n;
    let out_a = match srs.check_u(qap) {
        Ok(b) => b,
        Err(_) => false,
    };
    let out_b = match batch.verify_naive(srs, Phase::ONE) {
        Ok(b) => b,
        Err(_) => false,
    };
    let out_cd = if out_a {
        check_u_pairings(srs, n)
    } else {
        false
    };
    let out_e = match srs.check_s(qap) {
        Ok(b) => b,
        Err(_) => false,
    };
    let out_f = match batch.verify_naive(srs, Phase::TWO) {
        Ok(b) => b,
        Err(_) => false,
    };
    let out_gh = if out_a && out_e {
        check_s_pairings(qap, srs)
    } else {
        false
    };
    proof {
        if out_a {
            if srs.u.0@.len() >= 2 && srs.u.1@.len() >= 1 {
                assert(g1_ok(srs.u.0@[1].0));
                assert(g1_ok(srs.u.1@[0].0) && g1_ok(srs.u.1@[0].1));
            }
        }
    }
    Verification::from_bool(out_a && out_b && out_cd && out_e && out_f && out_gh)
}

/// The first points of the first `len` entries of `U0`.
pub open spec fn u0_firsts(u0: Seq<(G1Affine, G2Affine)>, len: int) -> Seq<G1Affine> {
    Seq::new(len as nat, |i: int| u0[i].0)
}

/// The second points of the first `len` entries of `U0`.
pub open spec fn u0_seconds(u0: Seq<(G1Affine, G2Affine)>, len: int) -> Seq<G2Affine> {
    Seq::new(len as nat, |i: int| u0[i].1)
}

/// The first points of `U0`, each at the index after its own.
pub open spec fn u0_shifted(u0: Seq<(G1Affine, G2Affine)>, len: int) -> Seq<G1Affine> {
    Seq::new(len as nat, |i: int| u0[if i == 0 { 0 } else { i - 1 }].0)
}

/// One of the two G1 components (`0` or `1`) of every entry of `U1`.
pub open spec fn u1_g1(u1: Seq<(G1Affine, G1Affine, G2Affine, G2Affine)>, k: int) -> Seq<G1Affine> {
    Seq::new(u1.len(), |i: int| if k == 0 { u1[i].0 } else { u1[i].1 })
}

/// One of the two G2 components (`2` or `3`) of every entry of `U1`.
pub open spec fn u1_g2(u1: Seq<(G1Affine, G1Affine, G2Affine, G2Affine)>, k: int) -> Seq<G2Affine> {
    Seq::new(u1.len(), |i: int| if k == 2 { u1[i].2 } else { u1[i].3 })
}

/// The logarithms `s2_sum(i)` for `i < m - l`.
pub open spec fn s2_sums(qap: QAP, srs: SRS) -> Seq<int> {
    Seq::new((qap.m - qap.l) as nat, |i: int| s2_sum(qap, srs.u, i, qap.n as int))
}

/// The batched pairing equations inside `U`, under the weights `s`.
pub open spec fn u_pairings_hold_batched(srs: SRS, n: int, s: Seq<int>) -> bool {
    let u0 = srs.u.0@;
    let u1 = srs.u.1@;
    let a = lin(s, logs1(u0_firsts(u0, 2 * n - 1)), 1, 2 * n - 1);
    let b = lin(s, logs2(u0_seconds(u0, 2 * n - 1)), 1, 2 * n - 1);
    let c = lin(s, logs1(u0_shifted(u0, 2 * n - 1)), 1, 2 * n - 1);
    let a2 = lin(s, logs1(u0_firsts(u0, n)), 0, n);
    let b2 = lin(s, logs1(u1_g1(u1, 0)), 0, n);
    let c2 = lin(s, logs1(u1_g1(u1, 1)), 0, n);
    let d2 = lin(s, logs2(u1_g2(u1, 2)), 0, n);
    let e2 = lin(s, logs2(u1_g2(u1, 3)), 0, n);
    &&& fmul(a, 1) == fmul(1, b)
    &&& (n >= 2 ==> fmul(a, 1) == fmul(c, log2(u0[1].1)))
    &&& fmul(b2, 1) == fmul(1, d2)
    &&& fmul(b2, 1) == fmul(a2, log2(u1[0].2))
    &&& fmul(c2, 1) == fmul(1, e2)
    &&& fmul(c2, 1) == fmul(a2, log2(u1[0].3))
}

/// The batched pairing equations that tie `S` to `U`, under the weights `s`.
pub open spec fn s_pairings_hold_batched(qap: QAP, srs: SRS, s: Seq<int>) -> bool {
    let ml = qap.m - qap.l;
    let n = qap.n as int;
    &&& fmul(lin(s, logs1(srs.s.2@), 0, ml), log2(srs.s.1)) == fmul(lin(s, s2_sums(qap, srs), 0, ml), 1)
    &&& fmul(lin(s, logs1(srs.s.3@), 0, n - 1), log2(srs.s.1)) == fmul(
        s3_sum(qap, srs.u, 0, n),
        lin(s, logs2(u0_seconds(srs.u.0@, n - 1)), 0, n - 1),
    )
}

/// Every check of the batched verifier passes under the weights `s`.
pub open spec fn ceremony_holds_batched(qap: QAP, srs: SRS, batch: BatchProof, s: Seq<int>) -> bool {
    &&& u_in_groups(srs.u, qap.n as int)
    &&& batched1_holds(srs, batch.batch_1@, s)
    &&& u_pairings_hold_batched(srs, qap.n as int, s)
    &&& s_in_groups(srs.s, qap.m as int, qap.n as int, qap.l as int)
    &&& chain_holds_batched(batch.batch_2@, s)
    &&& tail2_holds(srs, batch.batch_2@)
    &&& s_pairings_hold_batched(qap, srs, s)
}

/// The first points of the first `len` entries of `U0`.
fn firsts(u0: &Vec<(G1Affine, G2Affine)>, len: usize) -> (r: Vec<G1Affine>)
    requires
        len <= u0@.len(),
    ensures
        r@ == u0_firsts(u0@, len as int),
{
    let mut r: Vec<G1Affine> = Vec::new();
    let mut i: usize = 0;
    while i < len
        invariant
            len <= u0@.len(),
            0 <= i <= len,
            r@ == u0_firsts(u0@, i as int),
        decreases len - i,
    {
        r.push(u0[i].0);
        proof {
            assert(u0_firsts(u0@, i + 1) =~= u0_firsts(u0@, i as int).push(u0@[i as int].0));
        }
        i = i + 1;
    }
    r
}

/// The second points of the first `len` entries of `U0`.
fn seconds(u0: &Vec<(G1Affine, G2Affine)>, len: usize) -> (r: Vec<G2Affine>)
    requires
        len <= u0@.len(),
    ensures
        r@ == u0_seconds(u0@, len as int),
{
    let mut r: Vec<G2Affine> = Vec::new();
    let mut i: usize = 0;
    while i < len
        invariant
            len <= u0@.len(),
            0 <= i <= len,
            r@ == u0_seconds(u0@, i as int),
        decreases len - i,
    {
        r.push(u0[i].1);
        proof {
            assert(u0_seconds(u0@, i + 1) =~= u0_seconds(u0@, i as int).push(u0@[i as int].1));
        }
        i = i + 1;
    }
    r
}

/// The first points of `U0`, each at the index after its own.
fn shifted(u0: &Vec<(G1Affine, G2Affine)>, len: usize) -> (r: Vec<G1Affine>)
    requires
        len <= u0@.len(),
    ensures
        r@ == u0_shifted(u0@, len as int),
{
    let mut r: Vec<G1Affine> = Vec::new();
    let mut i: usize = 0;
    while i < len
        invariant
            len <= u0@.len(),
            0 <= i <= len,
            r@ == u0_shifted(u0@, i as int),
        decreases len - i,
    {
        let k = if i == 0 {
            0
        } else {
            i - 1
        };
        r.push(u0[k].0);
        proof {
            assert(u0_shifted(u0@, i + 1) =~= u0_shifted(u0@, i as int).push(u0@[k as int].0));
        }
        i = i + 1;
    }
    r
}

/// A G1 component (`0` or `1`) of every entry of `U1`.
fn u1_part1(u1: &Vec<(G1Affine, G1Affine, G2Affine, G2Affine)>, k: usize) -> (r: Vec<G1Affine>)
    ensures
        r@ == u1_g1(u1@, k as int),
{
    let mut r: Vec<G1Affine> = Vec::new();
    let mut i: usize = 0;
    while i < u1.len()
        invariant
            0 <= i <= u1@.len(),
            r@ == u1_g1(u1@, k as int).subrange(0, i as int),
        decreases u1@.len() - i,
    {
        let e = u1[i];
        let p = if k == 0 {
            e.0
        } else {
            e.1
        };
        r.push(p);
        proof {
            assert(u1_g1(u1@, k as int).subrange(0, i + 1) =~= u1_g1(u1@, k as int).subrange(0, i as int).push(p));
        }
        i = i + 1;
    }
    proof {
        assert(u1_g1(u1@, k as int).subrange(0, i as int) =~= u1_g1(u1@, k as int));
    }
    r
}

/// A G2 component (`2` or `3`) of every entry of `U1`.
fn u1_part2(u1: &Vec<(G1Affine, G1Affine, G2Affine, G2Affine)>, k: usize) -> (r: Vec<G2Affine>)
    ensures
        r@ == u1_g2(u1@, k as int),
{
    let mut r: Vec<G2Affine> = Vec::new();
    let mut i: usize = 0;
    while i < u1.len()
        invariant
            0 <= i <= u1@.len(),
            r@ == u1_g2(u1@, k as int).subrange(0, i as int),
        decreases u1@.len() - i,
    {
        let e = u1[i];
        let p = if k == 2 {
            e.2
        } else {
            e.3
        };
        r.push(p);
        proof {
            assert(u1_g2(u1@, k as int).subrange(0, i + 1) =~= u1_g2(u1@, k as int).subrange(0, i as int).push(p));
        }
        i = i + 1;
    }
    proof {
        assert(u1_g2(u1@, k as int).subrange(0, i as int) =~= u1_g2(u1@, k as int));
    }
    r
}

/// The batched pairing equations inside `U`.
fn check_u_pairings_batched(srs: &SRS, n: usize, s: &Vec<Scalar>) -> (r: bool)
    requires
        n >= 1,
        n <= isize::MAX,
        u_in_groups(srs.u, n as int),
        s@.len() >= 2 * n - 1,
    ensures
        r == u_pairings_hold_batched(*srs, n as int, svalues(s@)),
{
    let g = RcBls12_381::genG1();
    let h = RcBls12_381::genG2();
    let u0 = &srs.u.0;
    let u1 = &srs.u.1;
    let len = 2 * n - 1;
    let pa = firsts(u0, len);
    let pb = seconds(u0, len);
    let pc = shifted(u0, len);
    let pa2 = firsts(u0, n);
    let pb2 = u1_part1(u1, 0);
    let pc2 = u1_part1(u1, 1);
    let pd2 = u1_part2(u1, 2);
    let pe2 = u1_part2(u1, 3);
    proof {
        assert forall|i: int| 0 <= i < len implies in_g1(#[trigger] pa@[i]) && in_g2(pb@[i]) && in_g1(pc@[i]) by {
            assert(g1_ok(u0@[i].0) && g2_ok(u0@[i].1));
            assert(g1_ok(u0@[if i == 0 { 0 } else { i - 1 }].0));
        }
        assert forall|i: int| 0 <= i < n implies in_g1(#[trigger] pa2@[i]) && in_g1(pb2@[i]) && in_g1(pc2@[i]) && in_g2(pd2@[i]) && in_g2(pe2@[i]) by {
            assert(g1_ok(u0@[i].0));
            assert(g1_ok(u1@[i].0) && g1_ok(u1@[i].1) && g2_ok(u1@[i].2) && g2_ok(u1@[i].3));
        }
    }
    let a = lincomb1(s, &pa, 1);
    let b = lincomb2(s, &pb, 1);
    let c = lincomb1(s, &pc, 1);
    let a2 = lincomb1(s, &pa2, 0);
    let b2 = lincomb1(s, &pb2, 0);
    let c2 = lincomb1(s, &pc2, 0);
    let d2 = lincomb2(s, &pd2, 0);
    let e2 = lincomb2(s, &pe2, 0);
    let o1 = pairings_agree(&a, &h, &g, &b);
    let o2 = if n >= 2 {
        pairings_agree(&a, &h, &c, &u0[1].1)
    } else {
        true
    };
    let first = u1[0];
    proof {
        assert(g2_ok(u1@[0].2) && g2_ok(u1@[0].3));
        if n >= 2 {
            assert(g2_ok(u0@[1].1));
        }
    }
    let o3 = pairings_agree(&b2, &h, &g, &d2);
    let o4 = pairings_agree(&b2, &h, &a2, &first.2);
    let o5 = pairings_agree(&c2, &h, &g, &e2);
    let o6 = pairings_agree(&c2, &h, &a2, &first.3);
    o1 && o2 && o3 && o4 && o5 && o6
}

/// The batched pairing equations that tie `S` to `U` and the QAP.
fn check_s_pairings_batched(qap: &QAP, srs: &SRS, s: &Vec<Scalar>) -> (r: bool)
    requires
        qap.wf(),
        u_in_groups(srs.u, qap.n as int),
        s_in_groups(srs.s, qap.m as int, qap.n as int, qap.l as int),
        s@.len() >= qap.m - qap.l,
        s@.len() >= 2 * qap.n - 1,
    ensures
        r == s_pairings_hold_batched(*qap, *srs, svalues(s@)),
{
    let (m, n, l) = qap.shape();
    let h = RcBls12_381::genG2();
    let mut sums: Vec<G1Affine> = Vec::new();
    let mut i: usize = 0;
    while i < m - l
        invariant
            qap.wf(),
            m == qap.m && n == qap.n && l == qap.l,
            u_in_groups(srs.u, n as int),
            0 <= i <= m - l,
            sums@.len() == i,
            forall|k: int|
                0 <= k < i ==> g1_ok(#[trigger] sums@[k]) && log1(sums@[k]) == s2_sum(
                    *qap,
                    srs.u,
                    k,
                    n as int,
                ),
        decreases m - l - i,
    {
        sums.push(SRS::s2_entry(qap, &srs.u, i));
        i = i + 1;
    }
    proof {
        assert(logs1(sums@) =~= s2_sums(*qap, *srs));
        assert forall|k: int| 0 <= k < m - l implies in_g1(#[trigger] srs.s.2@[k]) by {}
        assert forall|k: int| 0 <= k < n - 1 implies in_g1(#[trigger] srs.s.3@[k]) by {}
    }
    let a = lincomb1(s, &srs.s.2, 0);
    let b = lincomb1(s, &sums, 0);
    let o1 = pairings_agree(&a, &srs.s.1, &b, &h);
    let gt = SRS::s3_entry(qap, &srs.u, 0);
    let pb = seconds(&srs.u.0, n - 1);
    proof {
        assert forall|k: int| 0 <= k < n - 1 implies in_g2(#[trigger] pb@[k]) by {
            assert(g2_ok(srs.u.0@[k].1));
        }
    }
    let a3 = lincomb1(s, &srs.s.3, 0);
    let b3 = lincomb2(s, &pb, 0);
    let o2 = pairings_agree(&a3, &srs.s.1, &gt, &b3);
    o1 && o2
}

/// The batched verifier under the given weights `s`: the same checks as
/// `verify_naive`, with one pairing equation per kind of check.
pub fn verify_with(qap: &QAP, srs: &SRS, batch: &BatchProof, s: &Vec<Scalar>) -> (r: Verification)
    requires
        qap.wf(),
        s@.len() >= 2 * qap.n - 1,
        s@.len() >= qap.m - qap.l,
        s@.len() >= batch.batch_1@.len(),
        s@.len() >= batch.batch_2@.len(),
    ensures
        batch1_in_groups(batch.batch_1@) && chain_in_groups(batch.batch_2@) ==> (r
            == Verification::SUCCESS <==> ceremony_holds_batched(*qap, *srs, *batch, svalues(s@))),
        !u_in_groups(srs.u, qap.n as int) || !s_in_groups(srs.s, qap.m as int, qap.n as int, qap.l as int)
            ==> r == Verification::FAILURE,
{
    let n = qap.n;
    let out_a = match srs.check_u(qap) {
        Ok(b) => b,
        Err(_) => false,
    };
    let out_b = match batch.verify(srs, s, Phase::ONE) {
        Ok(b) => b,
        Err(_) => false,
    };
    let out_cd = if out_a {
        check_u_pairings_batched(srs, n, s)
    } else {
        false
    };
    let out_e = match srs.check_s(qap) {
        Ok(b) => b,
        Err(_) => false,
    };
    let out_f = match batch.verify(srs, s, Phase::TWO) {
        Ok(b) => b,
        Err(_) => false,
    };
    let out_gh = if out_a && out_e {
        check_s_pairings_batched(qap, srs, s)
    } else {
        false
    };
    proof {
        if out_a {
            if srs.u.0@.len() >= 2 && srs.u.1@.len() >= 1 {
                assert(g1_ok(srs.u.0@[1].0));
                assert(g1_ok(srs.u.1@[0].0) && g1_ok(srs.u.1@[0].1));
            }
        }
    }
    Verification::from_bool(out_a && out_b && out_cd && out_e && out_f && out_gh)
}

/// The batched verifier with fresh random weights: the verdict is the one
/// `verify_with` gives for some weights.
pub fn verify(qap: &QAP, srs: &SRS, batch: &BatchProof) -> (r: Verification)
    requires
        qap.wf(),
    ensures
        batch1_in_groups(batch.batch_1@) && chain_in_groups(batch.batch_2@) ==> exists|s: Seq<int>|
            s.len() >= batch.batch_1@.len() && s.len() >= batch.batch_2@.len() && (r
                == Verification::SUCCESS <==> ceremony_holds_batched(*qap, *srs, *batch, s)),
        !u_in_groups(srs.u, qap.n as int) || !s_in_groups(srs.s, qap.m as int, qap.n as int, qap.l as int)
            ==> r == Verification::FAILURE,
{
    let mut len = 2 * qap.n - 1;
    if qap.m - qap.l > len {
        len = qap.m - qap.l;
    }
    if batch.batch_1.len() > len {
        len = batch.batch_1.len();
    }
    if batch.batch_2.len() > len {
        len = batch.batch_2.len();
    }
    let mut s: Vec<Scalar> = Vec::new();
    while s.len() < len
        invariant
            s@.len() <= len,
        decreases len - s@.len(),
    {
        s.push(RcBls12_381::rscalar());
    }
    let r = verify_with(qap, srs, batch, &s);
    proof {
        let ghost sv = svalues(s@);
        assert(sv.len() >= batch.batch_1@.len() && sv.len() >= batch.batch_2@.len());
        assert(batch1_in_groups(batch.batch_1@) && chain_in_groups(batch.batch_2@) ==> (r
            == Verification::SUCCESS <==> ceremony_holds_batched(*qap, *srs, *batch, sv)));
    }
    r
}

} // verus!
