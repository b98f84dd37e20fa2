//! Laws of the ceremony's algebra, stated over the logarithm model of the
//! groups and proved from the contracts of the facade and the protocol.
use vstd::prelude::*;
use vstd::arithmetic::div_mod::{lemma_add_mod_noop, lemma_mod_bound, lemma_mul_mod_noop_left, lemma_mul_mod_noop_right, lemma_small_mod};
use vstd::arithmetic::power::{lemma1_pow, lemma_pow_adds, lemma_pow_distributes, lemma_pow_mod_noop, pow};
use vstd::arithmetic::mul::{lemma_mul_is_associative, lemma_mul_is_commutative, lemma_mul_is_distributive_add};
use crate::backend::{invertible, fadd, finv, fmul, fpow, g1_ok, g2_ok, log1, log2, order, scalar_value};
use crate::constraints::{setup_matches_verify, QAP};
use crate::polynomial::poly_eval;
use crate::prover::{
    appended, aux_logs, batch1_in_groups, logs1, logs2, batched1_holds, chain_holds, chain_holds_batched, chain_in_groups,
    column, com0_logs, com1_logs, dlog_holds, honest_rho, lin, lin3, naive1_holds, oracle_log,
    oracle_logs, prev_aux_logs, previous, prf_logs, proofs_for, rho_holds, rho_in_groups, tail1_holds,
    tail2_holds,
    BatchProof, RhoProof, UpdateProof, Witness,
};
use bls12_381::Scalar;
use crate::srs::{
    s_is_specialized, srs_updated, u0_is, u1_is, coeff_value, s2_initial, s2_sum, s2_term, s3_initial, s3_sum, s_in_groups, u_in_groups,
    Trapdoor, SRS, U,
};
use crate::flow::{
    honest_update, updated_in_phase, witness_fits, Phase,
    ceremony_holds_batched, ceremony_holds_naive, s2_sums, s_pairings_hold, s_pairings_hold_batched,
    u0_firsts, u0_seconds, u0_shifted, u1_g1, u1_g2, u_pairings_hold, u_pairings_hold_batched,
};
use bls12_381::{G1Affine, G2Affine};

verus! {

/// A canonical field element stays unchanged when reduced.
pub proof fn lemma_canonical(a: int)
    requires
        0 <= a < order(),
    ensures
        a % order() == a,
{
    lemma_small_mod(a as nat, order() as nat);
}

/// Multiplying by zero gives zero in the field.
pub proof fn lemma_fmul_zero(a: int)
    ensures
        fmul(a, 0) == 0,
        fmul(0, a) == 0,
{
    vstd::arithmetic::mul::lemma_mul_basics(a);
    lemma_canonical(0);
}

/// Multiplication in the field is commutative.
pub proof fn lemma_fmul_comm(a: int, b: int)
    ensures
        fmul(a, b) == fmul(b, a),
{
    lemma_mul_is_commutative(a, b);
}

/// Multiplication in the field is associative.
pub proof fn lemma_fmul_assoc(a: int, b: int, c: int)
    ensures
        fmul(fmul(a, b), c) == fmul(a, fmul(b, c)),
{
    lemma_mul_mod_noop_left(a * b, c, order());
    lemma_mul_mod_noop_right(a, b * c, order());
    lemma_mul_is_associative(a, b, c);
}

/// Multiplication distributes over addition in the field.
pub proof fn lemma_fmul_distrib(a: int, b: int, c: int)
    ensures
        fmul(fadd(a, b), c) == fadd(fmul(a, c), fmul(b, c)),
{
    lemma_mul_mod_noop_left(a + b, c, order());
    lemma_mul_is_commutative(a + b, c);
    lemma_mul_is_distributive_add(c, a, b);
    lemma_mul_is_commutative(c, a);
    lemma_mul_is_commutative(c, b);
    lemma_add_mod_noop(a * c, b * c, order());
}

/// Scalar multiplication of a point whose logarithm is `lg`: zero gives the
/// zero point, one gives the point itself, and `k P + j P = (k + j) P`.
pub proof fn law_scalar_multiplication(k: int, j: int, lg: int)
    requires
        0 <= lg < order(),
    ensures
        fmul(0, lg) == 0,
        fmul(1, lg) == lg,
        fadd(fmul(k, lg), fmul(j, lg)) == fmul(fadd(k, j), lg),
{
    lemma_canonical(lg);
    lemma_fmul_distrib(k, j, lg);
    lemma_mul_mod_noop_left(k + j, lg, order());
    lemma_add_mod_noop(k, j, order());
    lemma_mul_mod_noop_left(k, lg, order());
}

/// The pairing is bilinear: `e(k P, j Q) = e(P, Q)^(k j)`, in logarithms.
pub proof fn law_pairing_bilinear(k: int, j: int, lp: int, lq: int)
    ensures
        fmul(fmul(k, lp), fmul(j, lq)) == fmul(fmul(k, j), fmul(lp, lq)),
{
    lemma_fmul_assoc(k, lp, fmul(j, lq));
    lemma_fmul_assoc(lp, j, lq);
    lemma_fmul_comm(lp, j);
    lemma_fmul_assoc(j, lp, lq);
    lemma_fmul_assoc(k, j, fmul(lp, lq));
}

/// An honest sigma proof holds: for the commitment `(w G, w H)` and the
/// proof `w R`, both pairing equations hold.
pub proof fn law_dlog_honest(w: int, c: (G1Affine, G2Affine), prf: G1Affine)
    requires
        0 <= w < order(),
        log1(c.0) == fmul(w, 1),
        log2(c.1) == fmul(w, 1),
        log1(prf) == fmul(w, oracle_log(c)),
    ensures
        dlog_holds(1, 1, c, prf),
{
    lemma_canonical(w);
    lemma_mod_bound(oracle_log(c), order());
    lemma_fmul_comm(w, oracle_log(c));
    lemma_mul_mod_noop_left(w * oracle_log(c), 1, order());
}

/// A sigma proof on a commitment whose two points have different
/// logarithms is rejected, whatever the proof.
pub proof fn law_dlog_rejects_unequal_commitment(c: (G1Affine, G2Affine), prf: G1Affine)
    requires
        g1_ok(c.0),
        g2_ok(c.1),
        log1(c.0) != log2(c.1),
    ensures
        !dlog_holds(1, 1, c, prf),
{
    lemma_canonical(log1(c.0));
    lemma_canonical(log2(c.1));
}

/// A proof other than `w R` for the commitment's `w` is rejected.
pub proof fn law_dlog_rejects_other_proof(c: (G1Affine, G2Affine), prf: G1Affine)
    requires
        g1_ok(prf),
        log1(prf) != fmul(oracle_log(c), log2(c.1)),
    ensures
        !dlog_holds(1, 1, c, prf),
{
    lemma_canonical(log1(prf));
}

/// The base of the `i`-th proof of an honest chain: `base` for the first,
/// the previous proof's `aux` after that.
pub open spec fn chain_base(chain: Seq<RhoProof>, base: G1Affine, i: int) -> G1Affine {
    if i == 0 {
        base
    } else {
        chain[i - 1].aux
    }
}

/// A chain of Rho proofs made honestly, each on the previous one's `aux`
/// with the scalars `ws`, holds against its predecessors.
pub proof fn law_honest_chain_holds(chain: Seq<RhoProof>, ws: Seq<int>, base: G1Affine)
    requires
        chain.len() == ws.len(),
        forall|i: int| 0 <= i < ws.len() ==> 0 <= #[trigger] ws[i] < order(),
        forall|i: int|
            0 <= i < chain.len() ==> honest_rho(1, 1, chain_base(chain, base, i), ws[i], #[trigger] chain[i]),
    ensures
        chain_holds(chain),
{
    assert forall|i: int| 0 <= i < chain.len() implies rho_holds(
        1,
        1,
        #[trigger] chain[i],
        previous(chain, i),
    ) by {
        let rho = chain[i];
        let w = ws[i];
        assert(honest_rho(1, 1, chain_base(chain, base, i), w, rho));
        law_dlog_honest(w, rho.com, rho.prf);
        if i > 0 {
            let pa = log1(chain[i - 1].aux);
            lemma_canonical(w);
            lemma_canonical(log1(rho.aux));
            lemma_fmul_comm(w, pa);
        }
    }
}

/// A sum of equal terms is equal.
pub proof fn lemma_lin_congruent(s: Seq<int>, p: Seq<int>, q: Seq<int>, lo: int, hi: int)
    requires
        forall|i: int| lo <= i < hi ==> fmul(s[i], #[trigger] p[i]) == fmul(s[i], q[i]),
    ensures
        lin(s, p, lo, hi) == lin(s, q, lo, hi),
    decreases hi - lo,
{
    if hi > lo {
        lemma_lin_congruent(s, p, q, lo, hi - 1);
        assert(fmul(s[hi - 1], p[hi - 1]) == fmul(s[hi - 1], q[hi - 1]));
    }
}

/// A weighted sum equals a sum of pairings when the terms agree.
pub proof fn lemma_lin_lin3(s: Seq<int>, p: Seq<int>, pw: Seq<int>, q: Seq<int>, lo: int, hi: int)
    requires
        forall|i: int| lo <= i < hi ==> fmul(s[i], #[trigger] p[i]) == fmul(fmul(s[i], pw[i]), q[i]),
    ensures
        lin(s, p, lo, hi) == lin3(s, pw, q, lo, hi),
    decreases hi - lo,
{
    if hi > lo {
        lemma_lin_lin3(s, p, pw, q, lo, hi - 1);
        assert(fmul(s[hi - 1], p[hi - 1]) == fmul(fmul(s[hi - 1], pw[hi - 1]), q[hi - 1]));
    }
}

/// A weighted sum is a canonical field element.
pub proof fn lemma_lin_canonical(s: Seq<int>, p: Seq<int>, lo: int, hi: int)
    ensures
        0 <= lin(s, p, lo, hi) < order(),
    decreases hi - lo,
{
    if hi > lo {
        lemma_mod_bound(lin(s, p, lo, hi - 1) + fmul(s[hi - 1], p[hi - 1]), order());
    }
}

/// When every proof of a chain holds against its predecessor, the batched
/// checks hold too, whatever the weights.
#[verifier::spinoff_prover]
pub proof fn law_chain_naive_implies_batched(chain: Seq<RhoProof>, s: Seq<int>)
    requires
        chain_in_groups(chain),
        chain_holds(chain),
        s.len() >= chain.len(),
    ensures
        chain_holds_batched(chain, s),
{
    let len = chain.len() as int;
    assert forall|i: int| 1 <= i < len implies fmul(s[i], #[trigger] aux_logs(chain)[i]) == fmul(
        fmul(s[i], prev_aux_logs(chain)[i]),
        com1_logs(chain)[i],
    ) by {
        assert(rho_holds(1, 1, chain[i], previous(chain, i)));
        assert(rho_in_groups(chain[i]));
        lemma_canonical(log1(chain[i].aux));
        lemma_fmul_assoc(s[i], log1(chain[i - 1].aux), log2(chain[i].com.1));
    }
    lemma_lin_lin3(s, aux_logs(chain), prev_aux_logs(chain), com1_logs(chain), 1, len);
    lemma_lin_canonical(s, aux_logs(chain), 1, len);
    lemma_canonical(lin(s, aux_logs(chain), 1, len));
    assert forall|i: int| 0 <= i < len implies fmul(s[i], #[trigger] com0_logs(chain)[i]) == fmul(
        s[i],
        com1_logs(chain)[i],
    ) by {
        assert(rho_holds(1, 1, chain[i], previous(chain, i)));
        assert(rho_in_groups(chain[i]));
        lemma_canonical(log1(chain[i].com.0));
        lemma_canonical(log2(chain[i].com.1));
    }
    lemma_lin_congruent(s, com0_logs(chain), com1_logs(chain), 0, len);
    lemma_fmul_comm(lin(s, com0_logs(chain), 0, len), 1);
    assert forall|i: int| 0 <= i < len implies fmul(s[i], #[trigger] prf_logs(chain)[i]) == fmul(
        fmul(s[i], oracle_logs(chain)[i]),
        com1_logs(chain)[i],
    ) by {
        assert(rho_holds(1, 1, chain[i], previous(chain, i)));
        assert(rho_in_groups(chain[i]));
        lemma_canonical(log1(chain[i].prf));
        lemma_fmul_assoc(s[i], oracle_log(chain[i].com), log2(chain[i].com.1));
    }
    lemma_lin_lin3(s, prf_logs(chain), oracle_logs(chain), com1_logs(chain), 0, len);
    lemma_lin_canonical(s, prf_logs(chain), 0, len);
    lemma_canonical(lin(s, prf_logs(chain), 0, len));
}

/// When the naive check of the phase-one list passes, the batched one
/// passes too, whatever the weights.
pub proof fn law_batch1_naive_implies_batched(srs: SRS, b: Seq<[RhoProof; 3]>, s: Seq<int>)
    requires
        batch1_in_groups(b),
        naive1_holds(srs, b),
        s.len() >= b.len(),
    ensures
        batched1_holds(srs, b, s),
{
    assert forall|j: int| 0 <= j < 3 implies chain_holds_batched(#[trigger] column(b, j), s) by {
        assert(chain_in_groups(column(b, j)));
        assert(chain_holds(column(b, j)));
        law_chain_naive_implies_batched(column(b, j), s);
    }
}

/// A chain in which some proof has a commitment with unequal logarithms, a
/// sigma proof other than `w R`, or an `aux` off the chain, does not hold.
pub proof fn law_chain_rejects_mutation(chain: Seq<RhoProof>, k: int)
    requires
        chain_in_groups(chain),
        0 <= k < chain.len(),
        log1(chain[k].com.0) != log2(chain[k].com.1) || log1(chain[k].prf) != fmul(
            oracle_log(chain[k].com),
            log2(chain[k].com.1),
        ) || (k > 0 && log1(chain[k].aux) != fmul(log1(chain[k - 1].aux), log2(chain[k].com.1))),
    ensures
        !chain_holds(chain),
{
    let rho = chain[k];
    assert(rho_in_groups(rho));
    lemma_canonical(log1(rho.com.0));
    lemma_canonical(log2(rho.com.1));
    lemma_canonical(log1(rho.prf));
    lemma_canonical(log1(rho.aux));
    assert(!rho_holds(1, 1, chain[k], previous(chain, k)));
}

/// Reducing an operand of a sum first changes nothing.
pub proof fn lemma_fadd_reduce(a: int, b: int)
    ensures
        fadd(a % order(), b) == fadd(a, b),
        fadd(a, b % order()) == fadd(a, b),
{
    lemma_add_mod_noop(a, b, order());
    lemma_add_mod_noop(a % order(), b, order());
    lemma_add_mod_noop(a, b % order(), order());
    lemma_mod_bound(a, order());
    lemma_mod_bound(b, order());
    lemma_canonical(a % order());
    lemma_canonical(b % order());
}

/// Addition in the field is associative.
pub proof fn lemma_fadd_assoc(a: int, b: int, c: int)
    ensures
        fadd(fadd(a, b), c) == fadd(a, fadd(b, c)),
{
    lemma_fadd_reduce(a + b, c);
    lemma_fadd_reduce(a, b + c);
}

/// `1^i = 1`, and so the inverse of one is one.
pub proof fn lemma_fpow_one(i: nat)
    ensures
        fpow(1, i) == 1,
        finv(1) == 1,
{
    lemma1_pow(i);
    lemma1_pow((order() - 2) as nat);
    lemma_canonical(1);
}

/// `cs[0] + ... + cs[k-1]` in the field.
pub open spec fn seq_sum(cs: Seq<int>, k: int) -> int
    decreases k,
{
    if k <= 0 {
        0
    } else {
        fadd(seq_sum(cs, k - 1), cs[k - 1])
    }
}

/// The sum can be split at its first term.
pub proof fn lemma_seq_sum_first(cs: Seq<int>, k: int)
    requires
        1 <= k <= cs.len(),
    ensures
        seq_sum(cs, k) == fadd(cs[0], seq_sum(cs.drop_first(), k - 1)),
    decreases k,
{
    assert(seq_sum(cs, 0) == 0);
    assert(seq_sum(cs.drop_first(), 0) == 0);
    if k > 1 {
        lemma_seq_sum_first(cs, k - 1);
        lemma_fadd_assoc(cs[0], seq_sum(cs.drop_first(), k - 2), cs[k - 1]);
        assert(cs.drop_first()[k - 2] == cs[k - 1]);
    }
}

/// A sum in the field is canonical.
pub proof fn lemma_seq_sum_canonical(cs: Seq<int>, k: int)
    ensures
        0 <= seq_sum(cs, k) < order(),
    decreases k,
{
    if k > 0 {
        lemma_mod_bound(seq_sum(cs, k - 1) + cs[k - 1], order());
    }
}

/// A polynomial at one is the sum of its coefficients.
pub proof fn lemma_poly_eval_at_one(cs: Seq<int>)
    ensures
        poly_eval(cs, 1) == seq_sum(cs, cs.len() as int),
    decreases cs.len(),
{
    if cs.len() > 0 {
        lemma_poly_eval_at_one(cs.drop_first());
        lemma_seq_sum_first(cs, cs.len() as int);
        lemma_seq_sum_canonical(cs.drop_first(), cs.len() - 1);
        lemma_canonical(poly_eval(cs.drop_first(), 1));
    }
}

/// With every point of `U0` of logarithm one, `S3`'s sum is the sum of the
/// first `k` coefficients of `t`.
pub proof fn lemma_s3_sum_at_one(qap: QAP, u: U, k: int)
    requires
        0 <= k <= qap.n,
        qap.t.coeffs@.len() == qap.n + 1,
        u.0@.len() == 2 * qap.n - 1,
        forall|j: int| 0 <= j < 2 * qap.n - 1 ==> log1((#[trigger] u.0@[j]).0) == 1,
    ensures
        s3_sum(qap, u, 0, k) == seq_sum(qap.t.view_coeffs(), k),
    decreases k,
{
    if k > 0 {
        lemma_s3_sum_at_one(qap, u, k - 1);
        assert(log1(u.0@[k - 1].0) == 1);
        assert(coeff_value(qap.t, k - 1) == qap.t.view_coeffs()[k - 1]);
        lemma_fadd_reduce(s3_sum(qap, u, 0, k - 1), coeff_value(qap.t, k - 1));
    }
}

/// With every point of `U` of logarithm one, the `i`-th sum of `S2` is the
/// sum of the first `k` coefficients of `u_i`, `v_i` and `w_i`.
#[verifier::spinoff_prover]
pub proof fn lemma_s2_sum_at_one(qap: QAP, u: U, i: int, k: int)
    requires
        0 <= i < qap.u@.len() && i < qap.v@.len() && i < qap.w@.len(),
        0 <= k <= qap.n,
        qap.u@[i].coeffs@.len() == qap.n && qap.v@[i].coeffs@.len() == qap.n
            && qap.w@[i].coeffs@.len() == qap.n,
        u.0@.len() == 2 * qap.n - 1,
        u.1@.len() == qap.n,
        forall|j: int| 0 <= j < 2 * qap.n - 1 ==> log1((#[trigger] u.0@[j]).0) == 1,
        forall|j: int| 0 <= j < qap.n ==> log1((#[trigger] u.1@[j]).0) == 1 && log1(u.1@[j].1) == 1,
    ensures
        s2_sum(qap, u, i, k) == fadd(
            fadd(seq_sum(qap.u@[i].view_coeffs(), k), seq_sum(qap.v@[i].view_coeffs(), k)),
            seq_sum(qap.w@[i].view_coeffs(), k),
        ),
    decreases k,
{
    if k > 0 {
        lemma_s2_sum_at_one(qap, u, i, k - 1);
        let j = k - 1;
        assert(log1(u.0@[j].0) == 1);
        assert(log1(u.1@[j].0) == 1 && log1(u.1@[j].1) == 1);
        let a = seq_sum(qap.u@[i].view_coeffs(), j);
        let b = seq_sum(qap.v@[i].view_coeffs(), j);
        let c = seq_sum(qap.w@[i].view_coeffs(), j);
        let x = coeff_value(qap.u@[i], j);
        let y = coeff_value(qap.v@[i], j);
        let z = coeff_value(qap.w@[i], j);
        assert(x == qap.u@[i].view_coeffs()[j]);
        assert(y == qap.v@[i].view_coeffs()[j]);
        assert(z == qap.w@[i].view_coeffs()[j]);
        lemma_fadd_reduce(a + b, c);
        lemma_fadd_reduce(x, y % order());
        lemma_fadd_reduce(x, y);
        lemma_fadd_reduce(x + y, z % order());
        lemma_fadd_reduce(x + y, z);
        lemma_fadd_reduce(a + b + c, (x + y + z) % order());
        lemma_fadd_reduce(a + b + c, x + y + z);
        lemma_fadd_reduce(a + x, (b + y) % order());
        lemma_fadd_reduce(a + x, b + y);
        lemma_fadd_reduce(a + x + b + y, (c + z) % order());
        lemma_fadd_reduce(a + x + b + y, c + z);
        let r = order();
        assert(s2_term(qap, u, i, j) == fadd(fadd(x % r, y % r), z % r));
        assert(fadd(fadd(x % r, y % r), z % r) == (x + y + z) % r);
        assert(s2_sum(qap, u, i, k) == fadd(fadd(fadd(a, b), c), s2_term(qap, u, i, j)));
        assert(fadd(fadd(fadd(a, b), c), (x + y + z) % r) == (a + b + c + x + y + z) % r);
        assert(seq_sum(qap.u@[i].view_coeffs(), k) == fadd(a, x));
        assert(seq_sum(qap.v@[i].view_coeffs(), k) == fadd(b, y));
        assert(seq_sum(qap.w@[i].view_coeffs(), k) == fadd(c, z));
        assert(fadd(fadd(fadd(a, x), fadd(b, y)), fadd(c, z)) == (a + x + b + y + c + z) % r);
        assert(a + b + c + x + y + z == a + x + b + y + c + z);
    } else {
        assert(seq_sum(qap.u@[i].view_coeffs(), 0) == 0);
        assert(seq_sum(qap.v@[i].view_coeffs(), 0) == 0);
        assert(seq_sum(qap.w@[i].view_coeffs(), 0) == 0);
        lemma_canonical(0);
    }
}

/// With the unit trapdoor `(1, 1, 1, 1)` and no update, the initial SRS
/// passes every check of the naive verifier.
#[verifier::spinoff_prover]
pub proof fn law_unit_setup_verifies(qap: QAP, srs: SRS, trp: Trapdoor, batch: BatchProof)
    requires
        qap.wf(),
        setup_matches_verify(qap),
        SRS::is_initial(srs, qap, trp),
        scalar_value(trp.0) == 1 && scalar_value(trp.1) == 1 && scalar_value(trp.2) == 1
            && scalar_value(trp.3) == 1,
        batch.batch_1@.len() == 0,
        batch.batch_2@.len() == 0,
    ensures
        ceremony_holds_naive(qap, srs, batch),
{
    let n = qap.n as int;
    let u0 = srs.u.0@;
    let u1 = srs.u.1@;
    lemma_canonical(1);
    assert forall|i: int| 0 <= i < 2 * n - 1 implies log1((#[trigger] u0[i]).0) == 1 && log2(u0[i].1)
        == 1 && g1_ok(u0[i].0) && g2_ok(u0[i].1) by {
        lemma_fpow_one(i as nat);
    }
    assert forall|i: int| 0 <= i < n implies log1((#[trigger] u1[i]).0) == 1 && log1(u1[i].1) == 1
        && log2(u1[i].2) == 1 && log2(u1[i].3) == 1 by {
        lemma_fpow_one(i as nat);
    }
    assert(u_in_groups(srs.u, n));
    assert(naive1_holds(srs, batch.batch_1@)) by {
        assert forall|j: int| 0 <= j < 3 implies chain_holds(#[trigger] column(batch.batch_1@, j)) by {}
    }
    assert(u_pairings_hold(srs, n)) by {
        assert(log2(u0[1].1) == 1 || n < 2);
        assert(log2(u1[0].2) == 1 && log2(u1[0].3) == 1);
    }
    assert(tail2_holds(srs, batch.batch_2@));
    lemma_fpow_one(0);
    assert forall|i: int| 0 <= i < qap.m - qap.l implies fmul(log1(#[trigger] srs.s.2@[i]), log2(srs.s.1))
        == fmul(s2_sum(qap, srs.u, i, n), 1) by {
        let k = i + qap.l + 1;
        assert(qap.u@[k].coeffs@.len() == qap.n);
        assert(qap.u@[i].coeffs@.len() == qap.n);
        assert(qap.u@[i].view_coeffs() == qap.u@[k].view_coeffs());
        let su = seq_sum(qap.u@[i].view_coeffs(), n);
        let sv = seq_sum(qap.v@[i].view_coeffs(), n);
        let sw = seq_sum(qap.w@[i].view_coeffs(), n);
        lemma_poly_eval_at_one(qap.u@[k].view_coeffs());
        lemma_poly_eval_at_one(qap.v@[k].view_coeffs());
        lemma_poly_eval_at_one(qap.w@[k].view_coeffs());
        lemma_seq_sum_canonical(qap.u@[i].view_coeffs(), n);
        lemma_seq_sum_canonical(qap.v@[i].view_coeffs(), n);
        lemma_canonical(su);
        lemma_canonical(sv);
        lemma_s2_sum_at_one(qap, srs.u, i, n);
        let x = fadd(fadd(su, sv), sw);
        lemma_mod_bound(fadd(su, sv) + sw, order());
        lemma_canonical(x);
        assert(log1(srs.s.2@[i]) == s2_initial(qap, 1, 1, 1, 1, k));
        assert(s2_initial(qap, 1, 1, 1, 1, k) == fmul(x, 1));
    }
    assert forall|i: int| 0 <= i < n - 1 implies fmul(log1(#[trigger] srs.s.3@[i]), log2(srs.s.1))
        == fmul(s3_sum(qap, srs.u, 0, n), log2(srs.u.0@[i].1)) by {
        lemma_fpow_one(i as nat);
        let tc = qap.t.view_coeffs();
        lemma_poly_eval_at_one(tc);
        lemma_s3_sum_at_one(qap, srs.u, n);
        lemma_seq_sum_canonical(tc, n);
        lemma_canonical(seq_sum(tc, n));
        assert(seq_sum(tc, n + 1) == fadd(seq_sum(tc, n), tc[n]));
        assert(log1(srs.s.3@[i]) == s3_initial(qap, 1, 1, i));
    }
    assert(s_pairings_hold(qap, srs));
}

/// A common factor comes out of a weighted sum.
pub proof fn lemma_lin_factor(s: Seq<int>, p: Seq<int>, c: Seq<int>, x: int, lo: int, hi: int)
    requires
        forall|i: int| lo <= i < hi ==> #[trigger] p[i] == fmul(c[i], x),
    ensures
        lin(s, p, lo, hi) == fmul(lin(s, c, lo, hi), x),
    decreases hi - lo,
{
    if hi > lo {
        lemma_lin_factor(s, p, c, x, lo, hi - 1);
        let i = hi - 1;
        assert(p[i] == fmul(c[i], x));
        lemma_fmul_assoc(s[i], c[i], x);
        lemma_fmul_distrib(lin(s, c, lo, hi - 1), fmul(s[i], c[i]), x);
    } else {
        lemma_canonical(0);
    }
}

/// Equal canonical terms give equal weighted sums.
pub proof fn lemma_lin_equal_terms(s: Seq<int>, p: Seq<int>, q: Seq<int>, lo: int, hi: int)
    requires
        forall|i: int| lo <= i < hi ==> #[trigger] p[i] == q[i],
    ensures
        lin(s, p, lo, hi) == lin(s, q, lo, hi),
{
    assert forall|i: int| lo <= i < hi implies fmul(s[i], #[trigger] p[i]) == fmul(s[i], q[i]) by {}
    lemma_lin_congruent(s, p, q, lo, hi);
}

/// The batched pairing equations inside `U` follow from the naive ones.
#[verifier::spinoff_prover]
pub proof fn law_u_pairings_naive_implies_batched(srs: SRS, n: int, s: Seq<int>)
    requires
        n >= 1,
        u_in_groups(srs.u, n),
        u_pairings_hold(srs, n),
    ensures
        u_pairings_hold_batched(srs, n, s),
{
    let u0 = srs.u.0@;
    let u1 = srs.u.1@;
    let len = 2 * n - 1;
    let a = logs1(u0_firsts(u0, len));
    let b = logs2(u0_seconds(u0, len));
    let c = logs1(u0_shifted(u0, len));
    assert forall|i: int| 1 <= i < len implies #[trigger] a[i] == b[i] && a[i] == fmul(
        c[i],
        log2(u0[1].1),
    ) by {
        assert(g1_ok(u0[i].0) && g2_ok(u0[i].1));
        lemma_canonical(log1(u0[i].0));
        lemma_canonical(log2(u0[i].1));
    }
    lemma_lin_equal_terms(s, a, b, 1, len);
    lemma_fmul_comm(lin(s, a, 1, len), 1);
    if n >= 2 {
        lemma_lin_factor(s, a, c, log2(u0[1].1), 1, len);
        lemma_lin_canonical(s, a, 1, len);
        lemma_canonical(lin(s, a, 1, len));
    }
    let a2 = logs1(u0_firsts(u0, n));
    let b2 = logs1(u1_g1(u1, 0));
    let c2 = logs1(u1_g1(u1, 1));
    let d2 = logs2(u1_g2(u1, 2));
    let e2 = logs2(u1_g2(u1, 3));
    assert forall|i: int| 0 <= i < n implies #[trigger] b2[i] == d2[i] && b2[i] == fmul(
        a2[i],
        log2(u1[0].2),
    ) by {
        assert(g1_ok(u1[i].0) && g2_ok(u1[i].2));
        lemma_canonical(log1(u1[i].0));
        lemma_canonical(log2(u1[i].2));
    }
    assert forall|i: int| 0 <= i < n implies #[trigger] c2[i] == e2[i] && c2[i] == fmul(
        a2[i],
        log2(u1[0].3),
    ) by {
        assert(g1_ok(u1[i].1) && g2_ok(u1[i].3));
        lemma_canonical(log1(u1[i].1));
        lemma_canonical(log2(u1[i].3));
    }
    lemma_lin_equal_terms(s, b2, d2, 0, n);
    lemma_lin_equal_terms(s, c2, e2, 0, n);
    lemma_fmul_comm(lin(s, b2, 0, n), 1);
    lemma_fmul_comm(lin(s, c2, 0, n), 1);
    lemma_lin_factor(s, b2, a2, log2(u1[0].2), 0, n);
    lemma_lin_factor(s, c2, a2, log2(u1[0].3), 0, n);
    lemma_lin_canonical(s, b2, 0, n);
    lemma_lin_canonical(s, c2, 0, n);
    lemma_canonical(lin(s, b2, 0, n));
    lemma_canonical(lin(s, c2, 0, n));
}

/// The batched pairing equations that tie `S` to `U` follow from the naive ones.
#[verifier::spinoff_prover]
pub proof fn law_s_pairings_naive_implies_batched(qap: QAP, srs: SRS, s: Seq<int>)
    requires
        qap.wf(),
        u_in_groups(srs.u, qap.n as int),
        s_in_groups(srs.s, qap.m as int, qap.n as int, qap.l as int),
        s_pairings_hold(qap, srs),
    ensures
        s_pairings_hold_batched(qap, srs, s),
{
    let ml = qap.m - qap.l;
    let n = qap.n as int;
    let w = log2(srs.s.1);
    let s2 = logs1(srs.s.2@);
    let sums = s2_sums(qap, srs);
    assert forall|i: int| 0 <= i < ml implies #[trigger] sums[i] == fmul(s2[i], w) by {
        lemma_lin_canonical(s, s2, 0, 0);
        assert(fmul(log1(srs.s.2@[i]), w) == fmul(s2_sum(qap, srs.u, i, n), 1));
        lemma_s2_sum_canonical(qap, srs.u, i, n);
        lemma_canonical(s2_sum(qap, srs.u, i, n));
    }
    lemma_lin_factor(s, sums, s2, w, 0, ml);
    lemma_lin_canonical(s, sums, 0, ml);
    lemma_canonical(lin(s, sums, 0, ml));
    let s3 = logs1(srs.s.3@);
    let v = logs2(u0_seconds(srs.u.0@, n - 1));
    let g = s3_sum(qap, srs.u, 0, n);
    let p = Seq::new((n - 1) as nat, |i: int| fmul(s3[i], w));
    assert forall|i: int| 0 <= i < n - 1 implies #[trigger] p[i] == fmul(v[i], g) by {
        assert(fmul(log1(srs.s.3@[i]), w) == fmul(g, log2(srs.u.0@[i].1)));
        lemma_fmul_comm(g, log2(srs.u.0@[i].1));
    }
    assert forall|i: int| 0 <= i < n - 1 implies #[trigger] p[i] == fmul(s3[i], w) by {}
    lemma_lin_factor(s, p, v, g, 0, n - 1);
    lemma_lin_factor(s, p, s3, w, 0, n - 1);
    lemma_fmul_comm(lin(s, v, 0, n - 1), g);
}

/// A partial sum of `S2` is canonical.
pub proof fn lemma_s2_sum_canonical(qap: QAP, u: U, i: int, k: int)
    ensures
        0 <= s2_sum(qap, u, i, k) < order(),
    decreases k,
{
    if k > 0 {
        lemma_mod_bound(s2_sum(qap, u, i, k - 1) + s2_term(qap, u, i, k - 1), order());
    }
}

/// When the naive verifier accepts, the batched verifier accepts under any
/// weights: a transcript and SRS that pass every check one by one pass the
/// random linear combinations too.
pub proof fn law_naive_implies_batched(qap: QAP, srs: SRS, batch: BatchProof, s: Seq<int>)
    requires
        qap.wf(),
        batch1_in_groups(batch.batch_1@),
        chain_in_groups(batch.batch_2@),
        s.len() >= batch.batch_1@.len(),
        s.len() >= batch.batch_2@.len(),
        ceremony_holds_naive(qap, srs, batch),
    ensures
        ceremony_holds_batched(qap, srs, batch, s),
{
    law_batch1_naive_implies_batched(srs, batch.batch_1@, s);
    law_chain_naive_implies_batched(batch.batch_2@, s);
    law_u_pairings_naive_implies_batched(srs, qap.n as int, s);
    law_s_pairings_naive_implies_batched(qap, srs, s);
}

/// `x^(i+1) = x^i x` in the field.
pub proof fn lemma_fpow_succ(x: int, i: nat)
    ensures
        fpow(x, i + 1) == fmul(fpow(x, i), x),
        fpow(x, 0) == 1,
{
    lemma_mul_mod_noop_left(pow(x, i), x, order());
    lemma_mul_is_commutative(x, pow(x, i));
    reveal(pow);
    assert(pow(x, i + 1) == x * pow(x, i));
    assert(pow(x, 0) == 1);
    lemma_canonical(1);
}

/// The powers `x^0, ..., x^(len-1)` in the field.
pub open spec fn powers(x: int, len: int) -> Seq<int> {
    Seq::new(len as nat, |j: int| fpow(x, j as nat))
}

/// Splitting `sum_{j<k} cs[j] x^j` at its first term.
#[verifier::spinoff_prover]
pub proof fn lemma_lin_powers_first(cs: Seq<int>, x: int, k: int)
    requires
        1 <= k <= cs.len(),
    ensures
        lin(cs, powers(x, cs.len() as int), 0, k) == fadd(
            cs[0],
            fmul(x, lin(cs.drop_first(), powers(x, cs.len() - 1), 0, k - 1)),
        ),
    decreases k,
{
    let pw = powers(x, cs.len() as int);
    let rest = cs.drop_first();
    let pr = powers(x, cs.len() - 1);
    lemma_fpow_succ(x, 0);
    assert(lin(cs, pw, 0, 0) == 0);
    assert(lin(rest, pr, 0, 0) == 0);
    if k == 1 {
        assert(pw[0] == 1);
        lemma_fadd_reduce(0, cs[0]);
        lemma_canonical(0);
        lemma_fadd_reduce(cs[0], 0);
    } else {
        lemma_lin_powers_first(cs, x, k - 1);
        let prev = lin(rest, pr, 0, k - 2);
        let c = cs[k - 1];
        assert(rest[k - 2] == c);
        assert(pw[k - 1] == fpow(x, (k - 1) as nat));
        assert(pr[k - 2] == fpow(x, (k - 2) as nat));
        lemma_fpow_succ(x, (k - 2) as nat);
        lemma_fmul_comm(fpow(x, (k - 2) as nat), x);
        lemma_fmul_assoc(x, c, fpow(x, (k - 2) as nat));
        lemma_fmul_comm(x, c);
        lemma_fmul_assoc(c, x, fpow(x, (k - 2) as nat));
        lemma_fmul_comm(prev, x);
        lemma_fmul_comm(fadd(prev, fmul(c, fpow(x, (k - 2) as nat))), x);
        lemma_fmul_distrib(prev, fmul(c, fpow(x, (k - 2) as nat)), x);
        lemma_fmul_comm(fmul(c, fpow(x, (k - 2) as nat)), x);
        lemma_fadd_assoc(cs[0], fmul(x, prev), fmul(c, fpow(x, (k - 1) as nat)));
    }
}

/// Horner's value of a polynomial is `sum_j cs[j] x^j`.
pub proof fn lemma_poly_eval_as_sum(cs: Seq<int>, x: int)
    ensures
        poly_eval(cs, x) == lin(cs, powers(x, cs.len() as int), 0, cs.len() as int),
    decreases cs.len(),
{
    if cs.len() > 0 {
        lemma_poly_eval_as_sum(cs.drop_first(), x);
        lemma_lin_powers_first(cs, x, cs.len() as int);
    }
}

/// Rearranging two sums of three terms in the field.
pub proof fn lemma_rearrange3(a: int, b: int, c: int, x: int, y: int, z: int)
    ensures
        fadd(fadd(fadd(a, b), c), fadd(fadd(x, y), z)) == fadd(fadd(fadd(a, x), fadd(b, y)), fadd(c, z)),
{
    let r = order();
    lemma_fadd_reduce(a + b, c);
    lemma_fadd_reduce(x + y, z);
    lemma_fadd_reduce(a + b + c, (x + y + z) % r);
    lemma_fadd_reduce(a + b + c, x + y + z);
    lemma_fadd_reduce(a + x, (b + y) % r);
    lemma_fadd_reduce(a + x, b + y);
    lemma_fadd_reduce(a + x + b + y, (c + z) % r);
    lemma_fadd_reduce(a + x + b + y, c + z);
    assert(a + b + c + (x + y + z) == a + x + b + y + (c + z));
}

/// With `S3`'s points of `U0` at the powers of `x`, its sum is
/// `sum_{j<k} t_j x^j`.
pub proof fn lemma_s3_sum_as_lin(qap: QAP, u: U, x: int, k: int)
    requires
        0 <= k <= qap.n,
        qap.t.coeffs@.len() == qap.n + 1,
        u.0@.len() == 2 * qap.n - 1,
        forall|j: int| 0 <= j < 2 * qap.n - 1 ==> log1((#[trigger] u.0@[j]).0) == fpow(x, j as nat),
    ensures
        s3_sum(qap, u, 0, k) == lin(qap.t.view_coeffs(), powers(x, qap.n + 1), 0, k),
    decreases k,
{
    if k > 0 {
        lemma_s3_sum_as_lin(qap, u, x, k - 1);
        assert(log1(u.0@[k - 1].0) == fpow(x, (k - 1) as nat));
        assert(coeff_value(qap.t, k - 1) == qap.t.view_coeffs()[k - 1]);
    }
}

/// `b x^j`, `a x^j` and `x^j` for `j < n`: the logarithms of `U1[j].1`,
/// `U1[j].0` and `U0[j].0` in an initial SRS.
pub open spec fn scaled_powers(c: int, x: int, n: int) -> Seq<int> {
    Seq::new(n as nat, |j: int| fmul(c, fpow(x, j as nat)))
}

/// With `U` at the powers of `x` scaled by `a` and `b`, the `i`-th sum of
/// `S2` is `sum_j u_i(j) b x^j + v_i(j) a x^j + w_i(j) x^j`.
#[verifier::spinoff_prover]
pub proof fn lemma_s2_sum_as_lin(qap: QAP, u: U, i: int, k: int, a: int, b: int, x: int)
    requires
        0 <= i < qap.u@.len() && i < qap.v@.len() && i < qap.w@.len(),
        0 <= k <= qap.n,
        qap.u@[i].coeffs@.len() == qap.n && qap.v@[i].coeffs@.len() == qap.n
            && qap.w@[i].coeffs@.len() == qap.n,
        u.0@.len() == 2 * qap.n - 1,
        u.1@.len() == qap.n,
        forall|j: int| 0 <= j < 2 * qap.n - 1 ==> log1((#[trigger] u.0@[j]).0) == fpow(x, j as nat),
        forall|j: int|
            0 <= j < qap.n ==> log1((#[trigger] u.1@[j]).0) == fmul(a, fpow(x, j as nat)) && log1(
                u.1@[j].1,
            ) == fmul(b, fpow(x, j as nat)),
    ensures
        s2_sum(qap, u, i, k) == fadd(
            fadd(
                lin(qap.u@[i].view_coeffs(), scaled_powers(b, x, qap.n as int), 0, k),
                lin(qap.v@[i].view_coeffs(), scaled_powers(a, x, qap.n as int), 0, k),
            ),
            lin(qap.w@[i].view_coeffs(), powers(x, qap.n as int), 0, k),
        ),
    decreases k,
{
    let n = qap.n as int;
    let cu = qap.u@[i].view_coeffs();
    let cv = qap.v@[i].view_coeffs();
    let cw = qap.w@[i].view_coeffs();
    if k > 0 {
        lemma_s2_sum_as_lin(qap, u, i, k - 1, a, b, x);
        let j = k - 1;
        assert(log1(u.0@[j].0) == fpow(x, j as nat));
        assert(log1(u.1@[j].0) == fmul(a, fpow(x, j as nat)));
        assert(coeff_value(qap.u@[i], j) == cu[j]);
        assert(coeff_value(qap.v@[i], j) == cv[j]);
        assert(coeff_value(qap.w@[i], j) == cw[j]);
        lemma_rearrange3(
            lin(cu, scaled_powers(b, x, n), 0, j),
            lin(cv, scaled_powers(a, x, n), 0, j),
            lin(cw, powers(x, n), 0, j),
            fmul(cu[j], scaled_powers(b, x, n)[j]),
            fmul(cv[j], scaled_powers(a, x, n)[j]),
            fmul(cw[j], powers(x, n)[j]),
        );
    } else {
        lemma_canonical(0);
    }
}

/// `sum_{j<k} c[j] (y x^j) = y sum_{j<k} c[j] x^j`.
pub proof fn lemma_lin_scaled(cs: Seq<int>, y: int, x: int, n: int, k: int)
    requires
        0 <= k <= n,
    ensures
        lin(cs, scaled_powers(y, x, n), 0, k) == fmul(lin(cs, powers(x, n), 0, k), y),
{
    assert forall|j: int| 0 <= j < k implies #[trigger] scaled_powers(y, x, n)[j] == fmul(
        powers(x, n)[j],
        y,
    ) by {
        lemma_fmul_comm(y, fpow(x, j as nat));
    }
    lemma_lin_factor(cs, scaled_powers(y, x, n), powers(x, n), y, 0, k);
}

/// Multiplying by `d` undoes multiplying by `d^-1`.
pub proof fn lemma_cancel_inverse(e: int, d: int)
    requires
        fmul(d, finv(d)) == 1,
        0 <= e < order(),
    ensures
        fmul(fmul(e, finv(d)), d % order()) == e,
{
    let r = order();
    lemma_mul_mod_noop_right(fmul(e, finv(d)), d, r);
    assert(fmul(fmul(e, finv(d)), d % r) == fmul(fmul(e, finv(d)), d));
    lemma_fmul_assoc(e, finv(d), d);
    lemma_fmul_comm(finv(d), d);
    assert(fmul(e, fmul(finv(d), d)) == fmul(e, 1));
    lemma_canonical(e);
    assert(fmul(e, 1) == e % r);
}

/// Setting up an SRS from any trapdoor with `d != 0`, with no update,
/// gives an SRS that passes every check of the naive verifier.
#[verifier::spinoff_prover]
pub proof fn law_setup_verifies(qap: QAP, srs: SRS, trp: Trapdoor, batch: BatchProof)
    requires
        qap.wf(),
        setup_matches_verify(qap),
        SRS::is_initial(srs, qap, trp),
        batch.batch_1@.len() == 0,
        batch.batch_2@.len() == 0,
    ensures
        ceremony_holds_naive(qap, srs, batch),
{
    lemma_initial_srs_checks(qap, srs, trp);
    assert(naive1_holds(srs, batch.batch_1@)) by {
        assert forall|j: int| 0 <= j < 3 implies chain_holds(#[trigger] column(batch.batch_1@, j)) by {}
    }
}

/// The SRS-only checks of the naive verifier hold of an initial SRS.
#[verifier::spinoff_prover]
pub proof fn lemma_initial_srs_checks(qap: QAP, srs: SRS, trp: Trapdoor)
    requires
        qap.wf(),
        setup_matches_verify(qap),
        SRS::is_initial(srs, qap, trp),
    ensures
        u_in_groups(srs.u, qap.n as int),
        u_pairings_hold(srs, qap.n as int),
        s_in_groups(srs.s, qap.m as int, qap.n as int, qap.l as int),
        s_pairings_hold(qap, srs),
        log1(srs.s.0) == log2(srs.s.1),
        log1(srs.s.0) != 0,
{
    let n = qap.n as int;
    let u0 = srs.u.0@;
    let u1 = srs.u.1@;
    let a = scalar_value(trp.0);
    let b = scalar_value(trp.1);
    let d = scalar_value(trp.2);
    let x = scalar_value(trp.3);
    lemma_canonical(1);
    lemma_fpow_succ(x, 0);
    lemma_mul_mod_noop_left(x, 1, order());
    lemma_u_structure(srs, a, b, x, n);
    if d % order() == 0 {
        lemma_mul_mod_noop_left(d, finv(d), order());
    }
    assert forall|i: int| 0 <= i < qap.m - qap.l implies fmul(log1(#[trigger] srs.s.2@[i]), log2(srs.s.1))
        == fmul(s2_sum(qap, srs.u, i, n), 1) by {
        let k = i + qap.l + 1;
        assert(qap.u@[k].coeffs@.len() == qap.n);
        assert(qap.u@[i].coeffs@.len() == qap.n);
        assert(qap.u@[i].view_coeffs() == qap.u@[k].view_coeffs());
        let cu = qap.u@[i].view_coeffs();
        let cv = qap.v@[i].view_coeffs();
        let cw = qap.w@[i].view_coeffs();
        lemma_poly_eval_as_sum(cu, x);
        lemma_poly_eval_as_sum(cv, x);
        lemma_poly_eval_as_sum(cw, x);
        assert forall|j: int| 0 <= j < n implies log1((#[trigger] u1[j]).0) == fmul(a, fpow(x, j as nat))
            && log1(u1[j].1) == fmul(b, fpow(x, j as nat)) by {}
        lemma_s2_sum_as_lin(qap, srs.u, i, n, a, b, x);
        lemma_lin_scaled(cu, b, x, n, n);
        lemma_lin_scaled(cv, a, x, n, n);
        let pu = poly_eval(cu, x);
        let pv = poly_eval(cv, x);
        let pw = poly_eval(cw, x);
        lemma_fmul_comm(pu, b);
        lemma_fmul_comm(pv, a);
        let e = fadd(fadd(fmul(b, pu), fmul(a, pv)), pw);
        lemma_mod_bound(fadd(fmul(b, pu), fmul(a, pv)) + pw, order());
        lemma_canonical(e);
        assert(log1(srs.s.2@[i]) == s2_initial(qap, a, b, d, x, k));
        lemma_cancel_inverse(e, d);
    }
    assert forall|i: int| 0 <= i < n - 1 implies fmul(log1(#[trigger] srs.s.3@[i]), log2(srs.s.1))
        == fmul(s3_sum(qap, srs.u, 0, n), log2(srs.u.0@[i].1)) by {
        let tc = qap.t.view_coeffs();
        let xi = fpow(x, i as nat);
        lemma_poly_eval_as_sum(tc, x);
        lemma_s3_sum_as_lin(qap, srs.u, x, n);
        let tn = lin(tc, powers(x, n + 1), 0, n);
        lemma_lin_canonical(tc, powers(x, n + 1), 0, n);
        lemma_canonical(tn);
        assert(tc[n] == 0);
        assert(tc.len() == n + 1);
        assert(lin(tc, powers(x, n + 1), 0, n + 1) == fadd(tn, fmul(tc[n], powers(x, n + 1)[n])));
        lemma_fmul_zero(powers(x, n + 1)[n]);
        assert(fmul(tc[n], powers(x, n + 1)[n]) == 0);
        assert(poly_eval(tc, x) == tn);
        let e = fmul(xi, tn);
        lemma_mod_bound(xi * tn, order());
        assert(log1(srs.s.3@[i]) == s3_initial(qap, d, x, i));
        lemma_cancel_inverse(e, d);
        lemma_fmul_comm(xi, tn);
    }
    assert(s_pairings_hold(qap, srs));
}

/// Multiplying one factor by `d^-1` and the other by `d` keeps a product.
pub proof fn lemma_inverse_pair(a: int, b: int, d: int, di: int)
    requires
        fmul(d, di) == 1,
    ensures
        fmul(fmul(di, a), fmul(d, b)) == fmul(a, b),
{
    lemma_fmul_assoc(di, a, fmul(d, b));
    lemma_fmul_assoc(a, d, b);
    lemma_fmul_comm(a, d);
    lemma_fmul_assoc(d, a, b);
    lemma_fmul_assoc(di, d, fmul(a, b));
    lemma_fmul_comm(di, d);
    lemma_mod_bound(a * b, order());
    lemma_canonical(fmul(a, b));
}

/// The `j`-th scalar of a phase-one witness (`a'`, `b'`, `x'`), or `d'`
/// of a phase-two one.
pub open spec fn witness_value(w: Witness, j: int) -> int {
    match w {
        Witness::ONE(a, b, x) => scalar_value(if j == 0 { a } else if j == 1 { b } else { x }),
        Witness::TWO(d) => scalar_value(d),
    }
}

/// The SRS-side checks that every state of a phase-two-only ceremony meets.
pub open spec fn phase2_state_ok(qap: QAP, srs: SRS) -> bool {
    &&& u_in_groups(srs.u, qap.n as int)
    &&& u_pairings_hold(srs, qap.n as int)
    &&& s_in_groups(srs.s, qap.m as int, qap.n as int, qap.l as int)
    &&& s_pairings_hold(qap, srs)
    &&& log1(srs.s.0) == log2(srs.s.1)
    &&& log1(srs.s.0) != 0
}

/// A phase-two update keeps every SRS-side check.
#[verifier::spinoff_prover]
pub proof fn lemma_phase2_step(qap: QAP, before: SRS, after: SRS, d: Scalar)
    requires
        qap.wf(),
        phase2_state_ok(qap, before),
        srs_updated(before, after, qap, Witness::TWO(d)),
    ensures
        phase2_state_ok(qap, after),
        log1(after.s.0) == fmul(scalar_value(d), log1(before.s.0)),
{
    let dv = scalar_value(d);
    let di = finv(dv);
    let n = qap.n as int;
    assert(after.u == before.u);
    assert(u_pairings_hold(after, n) == u_pairings_hold(before, n));
    assert forall|i: int| 0 <= i < qap.m - qap.l implies g1_ok(#[trigger] after.s.2@[i]) by {
        assert(g1_ok(before.s.2@[i]));
    }
    assert forall|i: int| 0 <= i < n - 1 implies g1_ok(#[trigger] after.s.3@[i]) by {
        assert(g1_ok(before.s.3@[i]));
    }
    assert forall|i: int| 0 <= i < qap.m - qap.l implies fmul(log1(#[trigger] after.s.2@[i]), log2(after.s.1))
        == fmul(s2_sum(qap, after.u, i, n), 1) by {
        assert(g1_ok(before.s.2@[i]));
        assert(fmul(log1(before.s.2@[i]), log2(before.s.1)) == fmul(s2_sum(qap, before.u, i, n), 1));
        lemma_inverse_pair(log1(before.s.2@[i]), log2(before.s.1), dv, di);
    }
    assert forall|i: int| 0 <= i < n - 1 implies fmul(log1(#[trigger] after.s.3@[i]), log2(after.s.1))
        == fmul(s3_sum(qap, after.u, 0, n), log2(after.u.0@[i].1)) by {
        assert(g1_ok(before.s.3@[i]));
        assert(fmul(log1(before.s.3@[i]), log2(before.s.1)) == fmul(s3_sum(qap, before.u, 0, n), log2(before.u.0@[i].1)));
        lemma_inverse_pair(log1(before.s.3@[i]), log2(before.s.1), dv, di);
    }
    let s0 = log1(before.s.0);
    lemma_canonical(s0);
    if fmul(dv, s0) == 0 {
        lemma_fmul_assoc(di, dv, s0);
        lemma_fmul_comm(di, dv);
        lemma_fmul_zero(di);
        assert(fmul(1, s0) == s0);
    }
}

/// `U` at the powers of `x`, scaled by `a` and `b` in `U1`, lies in its
/// groups and meets its pairing equations.
#[verifier::spinoff_prover]
pub proof fn lemma_u_structure(srs: SRS, a: int, b: int, x: int, n: int)
    requires
        n >= 1,
        u0_is(srs.u.0@, x, 2 * n - 1),
        u1_is(srs.u.1@, a, b, x, n),
    ensures
        u_in_groups(srs.u, n),
        u_pairings_hold(srs, n),
{
    let u0 = srs.u.0@;
    let u1 = srs.u.1@;
    lemma_canonical(1);
    lemma_fpow_succ(x, 0);
    lemma_mul_mod_noop_left(x, 1, order());
    assert(u_in_groups(srs.u, n));
    assert forall|i: int| 1 <= i < 2 * n - 1 implies fmul(log1((#[trigger] u0[i]).0), 1) == fmul(
        1,
        log2(u0[i].1),
    ) && fmul(log1(u0[i].0), 1) == fmul(log1(u0[i - 1].0), log2(u0[1].1)) by {
        lemma_fpow_succ(x, (i - 1) as nat);
        lemma_mod_bound(pow(x, i as nat), order());
        lemma_canonical(fpow(x, i as nat));
        lemma_mul_mod_noop_right(fpow(x, (i - 1) as nat), x, order());
        assert(log1(u0[i].0) == fpow(x, i as nat) && log2(u0[i].1) == fpow(x, i as nat));
        assert(log1(u0[i - 1].0) == fpow(x, (i - 1) as nat));
        assert(log2(u0[1].1) == fpow(x, 1));
        assert(fpow(x, 1) == x % order());
        assert(fmul(fpow(x, (i - 1) as nat), x % order()) == fmul(fpow(x, (i - 1) as nat), x));
        assert(fpow(x, i as nat) == fmul(fpow(x, (i - 1) as nat), x));
        assert(fmul(fpow(x, i as nat), 1) == fpow(x, i as nat));
    }
    assert forall|i: int| 0 <= i < n implies {
        &&& fmul(log1((#[trigger] u1[i]).0), 1) == fmul(1, log2(u1[i].2))
        &&& fmul(log1(u1[i].0), 1) == fmul(log1(u0[i].0), log2(u1[0].2))
        &&& fmul(log1(u1[i].1), 1) == fmul(1, log2(u1[i].3))
        &&& fmul(log1(u1[i].1), 1) == fmul(log1(u0[i].0), log2(u1[0].3))
    } by {
        let xi = fpow(x, i as nat);
        assert(log2(u1[0].2) == fmul(a, fpow(x, 0)));
        assert(log2(u1[0].3) == fmul(b, fpow(x, 0)));
        lemma_mod_bound(a * xi, order());
        lemma_mod_bound(b * xi, order());
        lemma_canonical(fmul(a, xi));
        lemma_canonical(fmul(b, xi));
        lemma_mul_mod_noop_right(xi, a, order());
        lemma_mul_mod_noop_right(xi, b, order());
        lemma_fmul_comm(xi, a);
        lemma_fmul_comm(xi, b);
    }
}

/// `x^(i+j) = x^i x^j` in the field.
pub proof fn lemma_fpow_add(x: int, i: nat, j: nat)
    ensures
        fpow(x, i + j) == fmul(fpow(x, i), fpow(x, j)),
{
    lemma_pow_adds(x, i, j);
    vstd::arithmetic::div_mod::lemma_mul_mod_noop(pow(x, i), pow(x, j), order());
}

/// `(x y)^i = x^i y^i` in the field.
pub proof fn lemma_fpow_mul(x: int, y: int, i: nat)
    ensures
        fpow(fmul(x, y), i) == fmul(fpow(x, i), fpow(y, i)),
{
    lemma_pow_mod_noop(x * y, i, order());
    lemma_pow_distributes(x, y, i);
    vstd::arithmetic::div_mod::lemma_mul_mod_noop(pow(x, i), pow(y, i), order());
}

/// With `U0` at the powers of `x`, `S3`'s `i`-th sum is `x^i` times its
/// first: `sum_j t_j x^(i+j) = x^i sum_j t_j x^j`.
pub proof fn lemma_s3_shift(qap: QAP, u: U, x: int, i: int, k: int)
    requires
        0 <= i,
        0 <= k,
        i + k <= 2 * qap.n - 1,
        u.0@.len() == 2 * qap.n - 1,
        forall|j: int| 0 <= j < 2 * qap.n - 1 ==> log1((#[trigger] u.0@[j]).0) == fpow(x, j as nat),
    ensures
        s3_sum(qap, u, i, k) == fmul(fpow(x, i as nat), s3_sum(qap, u, 0, k)),
    decreases k,
{
    let xi = fpow(x, i as nat);
    if k == 0 {
        lemma_fmul_zero(xi);
    } else {
        lemma_s3_shift(qap, u, x, i, k - 1);
        let c = coeff_value(qap.t, k - 1);
        let prev = s3_sum(qap, u, 0, k - 1);
        assert(log1(u.0@[i + k - 1].0) == fpow(x, (i + k - 1) as nat));
        assert(log1(u.0@[k - 1].0) == fpow(x, (k - 1) as nat));
        lemma_fpow_add(x, i as nat, (k - 1) as nat);
        assert((i + k - 1) as nat == i as nat + (k - 1) as nat);
        lemma_fmul_assoc(c, xi, fpow(x, (k - 1) as nat));
        lemma_fmul_comm(c, xi);
        lemma_fmul_assoc(xi, c, fpow(x, (k - 1) as nat));
        lemma_fmul_distrib(prev, fmul(c, fpow(x, (k - 1) as nat)), xi);
        lemma_fmul_comm(fadd(prev, fmul(c, fpow(x, (k - 1) as nat))), xi);
        lemma_fmul_comm(prev, xi);
        lemma_fmul_comm(fmul(c, fpow(x, (k - 1) as nat)), xi);
    }
}

/// An SRS whose `U` sits at the powers of `x` and whose `S` is specialised
/// from it meets every SRS-side check.
#[verifier::spinoff_prover]
pub proof fn lemma_specialized_state(qap: QAP, srs: SRS, a: int, b: int, x: int)
    requires
        qap.wf(),
        u0_is(srs.u.0@, x, 2 * qap.n - 1),
        u1_is(srs.u.1@, a, b, x, qap.n as int),
        s_is_specialized(srs.s, qap, srs.u),
    ensures
        phase2_state_ok(qap, srs),
{
    let n = qap.n as int;
    lemma_u_structure(srs, a, b, x, n);
    assert forall|i: int| 0 <= i < n - 1 implies fmul(log1(#[trigger] srs.s.3@[i]), log2(srs.s.1))
        == fmul(s3_sum(qap, srs.u, 0, n), log2(srs.u.0@[i].1)) by {
        assert forall|j: int| 0 <= j < 2 * n - 1 implies log1((#[trigger] srs.u.0@[j]).0) == fpow(
            x,
            j as nat,
        ) by {}
        lemma_s3_shift(qap, srs.u, x, i, n);
        assert(log2(srs.u.0@[i].1) == fpow(x, i as nat));
        let t = s3_sum(qap, srs.u, 0, n);
        let xi = fpow(x, i as nat);
        lemma_mod_bound(xi * t, order());
        lemma_canonical(fmul(xi, t));
        lemma_fmul_comm(xi, t);
    }
}

/// A phase-one update by `(a', b', x')` of a `U` at the powers of `x`
/// (scaled by `a`, `b`) gives the `U` of `(a' a, b' b, x' x)`, with `S`
/// specialised from it.
#[verifier::spinoff_prover]
pub proof fn lemma_phase1_step(
    qap: QAP,
    before: SRS,
    after: SRS,
    w: Witness,
    a: int,
    b: int,
    x: int,
)
    requires
        qap.wf(),
        w is ONE,
        u0_is(before.u.0@, x, 2 * qap.n - 1),
        u1_is(before.u.1@, a, b, x, qap.n as int),
        srs_updated(before, after, qap, w),
    ensures
        u0_is(after.u.0@, fmul(witness_value(w, 2), x), 2 * qap.n - 1),
        u1_is(
            after.u.1@,
            fmul(witness_value(w, 0), a),
            fmul(witness_value(w, 1), b),
            fmul(witness_value(w, 2), x),
            qap.n as int,
        ),
        s_is_specialized(after.s, qap, after.u),
{
    let n = qap.n as int;
    let a2 = witness_value(w, 0);
    let b2 = witness_value(w, 1);
    let x2 = witness_value(w, 2);
    assert forall|i: int| 0 <= i < 2 * n - 1 implies {
        &&& g1_ok((#[trigger] after.u.0@[i]).0) && g2_ok(after.u.0@[i].1)
        &&& log1(after.u.0@[i].0) == fpow(fmul(x2, x), i as nat)
        &&& log2(after.u.0@[i].1) == fpow(fmul(x2, x), i as nat)
    } by {
        assert(g1_ok(before.u.0@[i].0) && g2_ok(before.u.0@[i].1));
        lemma_fpow_mul(x2, x, i as nat);
    }
    assert forall|i: int| 0 <= i < n implies {
        &&& g1_ok((#[trigger] after.u.1@[i]).0) && g1_ok(after.u.1@[i].1) && g2_ok(after.u.1@[i].2)
            && g2_ok(after.u.1@[i].3)
        &&& log1(after.u.1@[i].0) == fmul(fmul(a2, a), fpow(fmul(x2, x), i as nat))
        &&& log1(after.u.1@[i].1) == fmul(fmul(b2, b), fpow(fmul(x2, x), i as nat))
        &&& log2(after.u.1@[i].2) == fmul(fmul(a2, a), fpow(fmul(x2, x), i as nat))
        &&& log2(after.u.1@[i].3) == fmul(fmul(b2, b), fpow(fmul(x2, x), i as nat))
    } by {
        assert(g1_ok(before.u.1@[i].0) && g1_ok(before.u.1@[i].1) && g2_ok(before.u.1@[i].2)
            && g2_ok(before.u.1@[i].3));
        lemma_fpow_mul(x2, x, i as nat);
        law_pairing_bilinear(a2, a, fpow(x2, i as nat), fpow(x, i as nat));
        law_pairing_bilinear(b2, b, fpow(x2, i as nat), fpow(x, i as nat));
    }
    lemma_u_structure(after, fmul(a2, a), fmul(b2, b), fmul(x2, x), n);
}

/// `init` multiplied by the `j`-th scalars of the first `k` witnesses.
pub open spec fn acc(init: int, ws: Seq<Witness>, j: int, k: int) -> int
    decreases k,
{
    if k <= 0 {
        init
    } else {
        fmul(witness_value(ws[k - 1], j), acc(init, ws, j, k - 1))
    }
}

/// A product with an invertible factor and a non-zero factor is not zero.
pub proof fn lemma_product_nonzero(w: int, v: int)
    requires
        invertible(w),
        v % order() != 0,
    ensures
        fmul(w, v) != 0,
{
    let e = choose|e: int| fmul(w, e) == 1;
    if fmul(w, v) == 0 {
        lemma_fmul_assoc(e, w, v);
        lemma_fmul_comm(e, w);
        lemma_fmul_zero(e);
        lemma_mul_mod_noop_left(1, v, order());
    }
}

/// The hypotheses on a ceremony of `n1` phase-one updates followed by
/// phase-two updates: the states, the witnesses (invertible scalars in
/// canonical range), and the transcript of their honest proofs.
pub open spec fn honest_ceremony(
    qap: QAP,
    srss: Seq<SRS>,
    ws: Seq<Witness>,
    n1: int,
    trp: Trapdoor,
    batch: BatchProof,
) -> bool {
    &&& qap.wf()
    &&& setup_matches_verify(qap)
    &&& qap.n >= 2
    &&& srss.len() == ws.len() + 1
    &&& 0 <= n1 <= ws.len()
    &&& SRS::is_initial(srss[0], qap, trp)
    &&& scalar_value(trp.0) % order() != 0 && scalar_value(trp.1) % order() != 0
        && scalar_value(trp.3) % order() != 0
    &&& forall|k: int|
        0 <= k < ws.len() ==> srs_updated(srss[k], #[trigger] srss[k + 1], qap, ws[k])
    &&& forall|k: int| 0 <= k < n1 ==> (#[trigger] ws[k]) is ONE
    &&& forall|k: int| n1 <= k < ws.len() ==> (#[trigger] ws[k]) is TWO
    &&& forall|k: int, j: int|
        0 <= k < ws.len() && 0 <= j < 3 ==> 0 <= #[trigger] witness_value(ws[k], j) < order()
    &&& forall|k: int, j: int|
        0 <= k < n1 && 0 <= j < 3 ==> invertible(#[trigger] witness_value(ws[k], j))
    &&& batch.batch_1@.len() == n1
    &&& batch.batch_2@.len() == ws.len() - n1
    &&& forall|k: int|
        0 <= k < n1 ==> proofs_for(
            srss[k],
            ws[k],
            UpdateProof::ONE(
                (#[trigger] batch.batch_1@[k])@[0],
                batch.batch_1@[k]@[1],
                batch.batch_1@[k]@[2],
            ),
        )
    &&& forall|k: int|
        n1 <= k < ws.len() ==> proofs_for(srss[k], ws[k], UpdateProof::TWO(#[trigger] batch.batch_2@[k - n1]))
}

/// The states of the phase-one part: `U` sits at the powers of the
/// accumulated `x`, scaled by the accumulated `a`, `b`, none of them zero;
/// `S` is specialised after the first update; and the SRS elements are the
/// `aux` of the proofs that made them.
#[verifier::spinoff_prover]
pub proof fn lemma_phase1_prefix(
    qap: QAP,
    srss: Seq<SRS>,
    ws: Seq<Witness>,
    n1: int,
    trp: Trapdoor,
    batch: BatchProof,
    k: int,
)
    requires
        honest_ceremony(qap, srss, ws, n1, trp, batch),
        0 <= k <= n1,
    ensures
        u0_is(srss[k].u.0@, acc(scalar_value(trp.3), ws, 2, k), 2 * qap.n - 1),
        u1_is(
            srss[k].u.1@,
            acc(scalar_value(trp.0), ws, 0, k),
            acc(scalar_value(trp.1), ws, 1, k),
            acc(scalar_value(trp.3), ws, 2, k),
            qap.n as int,
        ),
        k >= 1 ==> s_is_specialized(srss[k].s, qap, srss[k].u),
        acc(scalar_value(trp.0), ws, 0, k) % order() != 0,
        acc(scalar_value(trp.1), ws, 1, k) % order() != 0,
        acc(scalar_value(trp.3), ws, 2, k) % order() != 0,
        k >= 1 ==> log1(srss[k].u.1@[0].0) == log1(batch.batch_1@[k - 1]@[0].aux) && log1(
            srss[k].u.1@[0].1,
        ) == log1(batch.batch_1@[k - 1]@[1].aux) && log1(srss[k].u.0@[1].0) == log1(
            batch.batch_1@[k - 1]@[2].aux,
        ),
    decreases k,
{
    let a0 = scalar_value(trp.0);
    let b0 = scalar_value(trp.1);
    let x0 = scalar_value(trp.3);
    if k > 0 {
        let j = k - 1;
        lemma_phase1_prefix(qap, srss, ws, n1, trp, batch, j);
        let w = ws[j];
        assert(w is ONE);
        assert(srs_updated(srss[j], srss[j + 1], qap, w));
        assert(j + 1 == k);
        let aj = acc(a0, ws, 0, j);
        let bj = acc(b0, ws, 1, j);
        let xj = acc(x0, ws, 2, j);
        lemma_phase1_step(qap, srss[j], srss[k], w, aj, bj, xj);
        let wa = witness_value(w, 0);
        let wb = witness_value(w, 1);
        let wx = witness_value(w, 2);
        assert(invertible(wa) && invertible(wb) && invertible(wx));
        assert(0 <= wa < order() && 0 <= wb < order() && 0 <= wx < order());
        lemma_product_nonzero(wa, aj);
        lemma_product_nonzero(wb, bj);
        lemma_product_nonzero(wx, xj);
        lemma_mod_bound(wa * aj, order());
        lemma_mod_bound(wb * bj, order());
        lemma_mod_bound(wx * xj, order());
        lemma_canonical(fmul(wa, aj));
        lemma_canonical(fmul(wb, bj));
        lemma_canonical(fmul(wx, xj));
        let r = batch.batch_1@[j];
        assert(proofs_for(srss[j], w, UpdateProof::ONE(r@[0], r@[1], r@[2])));
        let old = srss[j];
        let new = srss[k];
        assert(g1_ok(old.u.1@[0].0) && g1_ok(old.u.1@[0].1) && g1_ok(old.u.0@[1].0));
        lemma_fpow_succ(xj, 0);
        lemma_fpow_succ(fmul(wx, xj), 0);
        lemma_mul_mod_noop_left(xj, 1, order());
        lemma_mul_mod_noop_left(fmul(wx, xj), 1, order());
        lemma_mul_mod_noop_right(wa, aj, order());
        lemma_mul_mod_noop_right(wb, bj, order());
        lemma_mul_mod_noop_right(wx, xj, order());
        lemma_canonical(1);
        assert(log1(new.u.1@[0].0) == fmul(fmul(wa, aj), fpow(fmul(wx, xj), 0)));
        assert(log1(old.u.1@[0].0) == fmul(aj, fpow(xj, 0)));
        assert(log1(new.u.1@[0].1) == fmul(fmul(wb, bj), fpow(fmul(wx, xj), 0)));
        assert(log1(old.u.1@[0].1) == fmul(bj, fpow(xj, 0)));
        assert(log1(new.u.0@[1].0) == fpow(fmul(wx, xj), 1));
        assert(log1(old.u.0@[1].0) == fpow(xj, 1));
        lemma_mul_mod_noop_right(wa, aj * 1, order());
        lemma_mul_mod_noop_right(wb, bj * 1, order());
    }
}

/// The states of the phase-two part, from the `n1`-th on: each meets the
/// SRS-side checks, keeps `U`, and its `S.0` is the `aux` of the proof that
/// made it.
#[verifier::spinoff_prover]
pub proof fn lemma_phase2_tail(
    qap: QAP,
    srss: Seq<SRS>,
    ws: Seq<Witness>,
    n1: int,
    trp: Trapdoor,
    batch: BatchProof,
    k: int,
)
    requires
        honest_ceremony(qap, srss, ws, n1, trp, batch),
        phase2_state_ok(qap, srss[n1]),
        n1 <= k <= ws.len(),
    ensures
        phase2_state_ok(qap, srss[k]),
        srss[k].u == srss[n1].u,
        g1_ok(srss[k].s.0),
        k > n1 ==> log1(srss[k].s.0) == log1(batch.batch_2@[k - n1 - 1].aux),
    decreases k,
{
    if k > n1 {
        let j = k - 1;
        lemma_phase2_tail(qap, srss, ws, n1, trp, batch, j);
        let w = ws[j];
        assert(w is TWO);
        assert(srs_updated(srss[j], srss[j + 1], qap, w));
        assert(j + 1 == k);
        assert(w == Witness::TWO(w->TWO_0));
        lemma_phase2_step(qap, srss[j], srss[k], w->TWO_0);
        assert(proofs_for(srss[j], w, UpdateProof::TWO(batch.batch_2@[j - n1])));
    }
}

/// Setting up an SRS from a trapdoor with `a`, `b`, `d`, `x` non-zero, then
/// any number of phase-one updates followed by any number of phase-two
/// updates, each with non-zero scalars and appending its honest proofs,
/// gives an SRS and transcript that pass every check of the naive verifier.
#[verifier::spinoff_prover]
pub proof fn law_ceremony_verifies(
    qap: QAP,
    srss: Seq<SRS>,
    ws: Seq<Witness>,
    n1: int,
    trp: Trapdoor,
    batch: BatchProof,
)
    requires
        honest_ceremony(qap, srss, ws, n1, trp, batch),
    ensures
        ceremony_holds_naive(qap, srss[ws.len() as int], batch),
        batch1_in_groups(batch.batch_1@),
        chain_in_groups(batch.batch_2@),
{
    let len = ws.len() as int;
    let n = qap.n as int;
    let a0 = scalar_value(trp.0);
    let b0 = scalar_value(trp.1);
    let x0 = scalar_value(trp.3);
    lemma_phase1_prefix(qap, srss, ws, n1, trp, batch, n1);
    if n1 == 0 {
        lemma_initial_srs_checks(qap, srss[0], trp);
    } else {
        lemma_specialized_state(
            qap,
            srss[n1],
            acc(a0, ws, 0, n1),
            acc(b0, ws, 1, n1),
            acc(x0, ws, 2, n1),
        );
    }
    lemma_phase2_tail(qap, srss, ws, n1, trp, batch, len);
    let last = srss[len];
    let b1 = batch.batch_1@;
    let b2 = batch.batch_2@;
    let vals2 = Seq::new(b2.len(), |i: int| witness_value(ws[i + n1], 0));
    assert forall|i: int| 0 <= i < b2.len() implies honest_rho(
        1,
        1,
        chain_base(b2, srss[n1].s.0, i),
        vals2[i],
        #[trigger] b2[i],
    ) by {
        lemma_phase2_tail(qap, srss, ws, n1, trp, batch, i + n1);
        assert(ws[i + n1] is TWO);
        assert(proofs_for(srss[i + n1], ws[i + n1], UpdateProof::TWO(b2[i + n1 - n1])));
    }
    assert forall|i: int| 0 <= i < vals2.len() implies 0 <= #[trigger] vals2[i] < order() by {
        assert(0 <= witness_value(ws[i + n1], 0) < order());
    }
    law_honest_chain_holds(b2, vals2, srss[n1].s.0);
    assert(chain_in_groups(b2));
    assert forall|j: int| 0 <= j < 3 implies chain_holds(#[trigger] column(b1, j)) by {
        let col = column(b1, j);
        let base = if j == 0 {
            srss[0].u.1@[0].0
        } else if j == 1 {
            srss[0].u.1@[0].1
        } else {
            srss[0].u.0@[1].0
        };
        let vals = Seq::new(b1.len(), |i: int| witness_value(ws[i], j));
        assert forall|i: int| 0 <= i < col.len() implies honest_rho(
            1,
            1,
            chain_base(col, base, i),
            vals[i],
            #[trigger] col[i],
        ) by {
            lemma_phase1_prefix(qap, srss, ws, n1, trp, batch, i);
            let r = b1[i];
            assert(proofs_for(srss[i], ws[i], UpdateProof::ONE(r@[0], r@[1], r@[2])));
            assert(ws[i] is ONE);
            assert(g1_ok(srss[i].u.1@[0].0) && g1_ok(srss[i].u.1@[0].1) && g1_ok(srss[i].u.0@[1].0));
            assert(col[i] == r@[j]);
            if i > 0 {
                assert(col[i - 1] == b1[i - 1]@[j]);
            }
        }
        assert forall|i: int| 0 <= i < vals.len() implies 0 <= #[trigger] vals[i] < order() by {
            assert(0 <= witness_value(ws[i], j) < order());
        }
        law_honest_chain_holds(col, vals, base);
    }
    assert forall|j: int| 0 <= j < 3 implies chain_in_groups(#[trigger] column(b1, j)) by {
        assert forall|i: int| 0 <= i < b1.len() implies rho_in_groups(#[trigger] column(b1, j)[i]) by {
            lemma_phase1_prefix(qap, srss, ws, n1, trp, batch, i);
            let r = b1[i];
            assert(proofs_for(srss[i], ws[i], UpdateProof::ONE(r@[0], r@[1], r@[2])));
            assert(g1_ok(srss[i].u.1@[0].0) && g1_ok(srss[i].u.1@[0].1) && g1_ok(srss[i].u.0@[1].0));
            assert(column(b1, j)[i] == r@[j]);
        }
    }
    assert(tail1_holds(last, b1)) by {
        if n1 > 0 {
            let an = acc(a0, ws, 0, n1);
            let bn = acc(b0, ws, 1, n1);
            let xn = acc(x0, ws, 2, n1);
            lemma_fpow_succ(xn, 0);
            lemma_mul_mod_noop_left(xn, 1, order());
            lemma_canonical(1);
            let mid = srss[n1];
            assert(last.u == mid.u);
            assert(mid.u.0@.len() == 2 * n - 1 && mid.u.1@.len() == n);
            assert(log1(mid.u.1@[0].0) == fmul(an, fpow(xn, 0)));
            assert(log1(mid.u.1@[0].1) == fmul(bn, fpow(xn, 0)));
            assert(log1(mid.u.0@[1].0) == fpow(xn, 1));
            assert(fpow(xn, 0) == 1);
            vstd::arithmetic::mul::lemma_mul_basics(an);
            vstd::arithmetic::mul::lemma_mul_basics(bn);
            assert(fmul(an, 1) == an % order());
            assert(fmul(bn, 1) == bn % order());
            assert(fpow(xn, 1) == xn % order());
            let lastp = b1[b1.len() - 1];
            assert(b1.len() - 1 == n1 - 1);
            assert(log1(mid.u.1@[0].0) == log1(lastp@[0].aux));
            assert(log1(mid.u.1@[0].1) == log1(lastp@[1].aux));
            assert(log1(mid.u.0@[1].0) == log1(lastp@[2].aux));
            assert(log1(lastp@[0].aux) != 0 && log1(lastp@[1].aux) != 0 && log1(lastp@[2].aux) != 0);
        }
    }
    assert(naive1_holds(last, b1));
    assert(tail2_holds(last, b2));
}

/// After an honest update, the `aux` of each new proof is the SRS element
/// it stands for (`U1[0].0`, `U1[0].1`, `U0[1].0` in phase one, `S.0` in
/// phase two), and each new proof holds on its own.
#[verifier::spinoff_prover]
pub proof fn law_update_links(
    qap: QAP,
    before_srs: SRS,
    after_srs: SRS,
    before_batch: BatchProof,
    after_batch: BatchProof,
    phase: Phase,
)
    requires
        qap.wf(),
        qap.n >= 2,
        u_in_groups(before_srs.u, qap.n as int),
        g1_ok(before_srs.s.0),
        updated_in_phase(qap, before_srs, after_srs, before_batch, after_batch, phase),
    ensures
        phase == Phase::ONE ==> {
            let p = after_batch.batch_1@.last();
            &&& after_batch.batch_1@ == before_batch.batch_1@.push(p)
            &&& after_batch.batch_2@ == before_batch.batch_2@
            &&& log1(p@[0].aux) == log1(after_srs.u.1@[0].0)
            &&& log1(p@[1].aux) == log1(after_srs.u.1@[0].1)
            &&& log1(p@[2].aux) == log1(after_srs.u.0@[1].0)
            &&& rho_holds(1, 1, p@[0], None) && rho_holds(1, 1, p@[1], None) && rho_holds(1, 1, p@[2], None)
        },
        phase == Phase::TWO ==> {
            let r = after_batch.batch_2@.last();
            &&& after_batch.batch_2@ == before_batch.batch_2@.push(r)
            &&& after_batch.batch_1@ == before_batch.batch_1@
            &&& after_srs.u == before_srs.u
            &&& log1(r.aux) == log1(after_srs.s.0)
            &&& rho_holds(1, 1, r, None)
        },
{
    let w = choose|w: Witness|
        witness_fits(w, phase) && honest_update(qap, before_srs, after_srs, before_batch, after_batch, w);
    let p = choose|p: UpdateProof| appended(before_batch, after_batch, p) && proofs_for(before_srs, w, p);
    lemma_canonical(1);
    match w {
        Witness::ONE(a, b, x) => {
            let av = scalar_value(a);
            let bv = scalar_value(b);
            let xv = scalar_value(x);
            assert(p is ONE);
            let ra = p->ONE_0;
            let rb = p->ONE_1;
            let rx = p->ONE_2;
            assert(after_batch.batch_1@.last() == [ra, rb, rx]);
            let u0 = before_srs.u.0@;
            let u1 = before_srs.u.1@;
            assert(g1_ok(u1[0].0) && g1_ok(u1[0].1) && g1_ok(u0[1].0));
            lemma_fpow_succ(xv, 0);
            lemma_mul_mod_noop_left(xv, 1, order());
            lemma_mul_mod_noop_left(av, 1, order());
            lemma_mul_mod_noop_left(bv, 1, order());
            vstd::arithmetic::mul::lemma_mul_basics(av);
            vstd::arithmetic::mul::lemma_mul_basics(bv);
            vstd::arithmetic::mul::lemma_mul_basics(xv);
            assert(fmul(av, 1) == av % order());
            assert(fmul(bv, 1) == bv % order());
            assert(fmul(av, fpow(xv, 0)) == av % order());
            assert(fmul(bv, fpow(xv, 0)) == bv % order());
            assert(fpow(xv, 1) == xv % order());
            lemma_mul_mod_noop_left(av, log1(u1[0].0), order());
            lemma_mul_mod_noop_left(bv, log1(u1[0].1), order());
            lemma_mul_mod_noop_left(xv, log1(u0[1].0), order());
            assert([ra, rb, rx]@[0] == ra && [ra, rb, rx]@[1] == rb && [ra, rb, rx]@[2] == rx);
            law_dlog_honest(av, ra.com, ra.prf);
            law_dlog_honest(bv, rb.com, rb.prf);
            law_dlog_honest(xv, rx.com, rx.prf);
        },
        Witness::TWO(d) => {
            assert(p is TWO);
            let r = p->TWO_0;
            law_dlog_honest(scalar_value(d), r.com, r.prf);
        },
    }
}

/// The witness that `update` used at step `k` of a run of updates.
pub open spec fn step_witness(
    qap: QAP,
    srss: Seq<SRS>,
    batches: Seq<BatchProof>,
    phases: Seq<Phase>,
    k: int,
) -> Witness {
    choose|w: Witness|
        witness_fits(w, phases[k]) && honest_update(qap, srss[k], srss[k + 1], batches[k], batches[k + 1], w)
}

/// A run of updates from an empty transcript: `n1` in phase one, then the
/// rest in phase two, each as `update` ensures.
pub open spec fn update_run(
    qap: QAP,
    srss: Seq<SRS>,
    batches: Seq<BatchProof>,
    phases: Seq<Phase>,
    n1: int,
) -> bool {
    &&& srss.len() == phases.len() + 1
    &&& batches.len() == phases.len() + 1
    &&& 0 <= n1 <= phases.len()
    &&& batches[0].batch_1@.len() == 0 && batches[0].batch_2@.len() == 0
    &&& forall|k: int| 0 <= k < n1 ==> #[trigger] phases[k] == Phase::ONE
    &&& forall|k: int| n1 <= k < phases.len() ==> #[trigger] phases[k] == Phase::TWO
    &&& forall|k: int|
        0 <= k < phases.len() ==> updated_in_phase(
            qap,
            srss[k],
            #[trigger] srss[k + 1],
            batches[k],
            batches[k + 1],
            phases[k],
        )
}

/// After `k` updates of a run, the transcript holds exactly the honest
/// proofs of the first `k` witnesses, in order.
#[verifier::spinoff_prover]
pub proof fn lemma_update_run_prefix(
    qap: QAP,
    srss: Seq<SRS>,
    batches: Seq<BatchProof>,
    phases: Seq<Phase>,
    n1: int,
    k: int,
)
    requires
        update_run(qap, srss, batches, phases, n1),
        0 <= k <= phases.len(),
    ensures
        k <= n1 ==> batches[k].batch_1@.len() == k && batches[k].batch_2@.len() == 0,
        k > n1 ==> batches[k].batch_1@.len() == n1 && batches[k].batch_2@.len() == k - n1,
        forall|j: int|
            0 <= j < k && j < n1 ==> proofs_for(
                srss[j],
                step_witness(qap, srss, batches, phases, j),
                UpdateProof::ONE(
                    (#[trigger] batches[k].batch_1@[j])@[0],
                    batches[k].batch_1@[j]@[1],
                    batches[k].batch_1@[j]@[2],
                ),
            ),
        forall|j: int|
            n1 <= j < k ==> proofs_for(
                srss[j],
                step_witness(qap, srss, batches, phases, j),
                UpdateProof::TWO(#[trigger] batches[k].batch_2@[j - n1]),
            ),
    decreases k,
{
    if k > 0 {
        let i = k - 1;
        lemma_update_run_prefix(qap, srss, batches, phases, n1, i);
        assert(updated_in_phase(qap, srss[i], srss[i + 1], batches[i], batches[i + 1], phases[i]));
        assert(i + 1 == k);
        let w = step_witness(qap, srss, batches, phases, i);
        assert(witness_fits(w, phases[i]) && honest_update(qap, srss[i], srss[k], batches[i], batches[k], w));
        let p = choose|p: UpdateProof| appended(batches[i], batches[k], p) && proofs_for(srss[i], w, p);
        let before = batches[i];
        let after = batches[k];
        if i < n1 {
            assert(phases[i] == Phase::ONE);
            assert(w is ONE);
            assert(p is ONE);
            let arr = [p->ONE_0, p->ONE_1, p->ONE_2];
            assert(after.batch_1@ == before.batch_1@.push(arr));
            assert(arr@[0] == p->ONE_0 && arr@[1] == p->ONE_1 && arr@[2] == p->ONE_2);
            assert forall|j: int| 0 <= j < k && j < n1 implies proofs_for(
                srss[j],
                step_witness(qap, srss, batches, phases, j),
                UpdateProof::ONE(
                    (#[trigger] after.batch_1@[j])@[0],
                    after.batch_1@[j]@[1],
                    after.batch_1@[j]@[2],
                ),
            ) by {
                if j < i {
                    assert(after.batch_1@[j] == before.batch_1@[j]);
                } else {
                    assert(after.batch_1@[j] == arr);
                }
            }
        } else {
            assert(phases[i] == Phase::TWO);
            assert(w is TWO);
            assert(p is TWO);
            assert(after.batch_2@ == before.batch_2@.push(p->TWO_0));
            assert forall|j: int| n1 <= j < k implies proofs_for(
                srss[j],
                step_witness(qap, srss, batches, phases, j),
                UpdateProof::TWO(#[trigger] after.batch_2@[j - n1]),
            ) by {
                if j < i {
                    assert(after.batch_2@[j - n1] == before.batch_2@[j - n1]);
                }
            }
        }
    }
}

/// Setting up an SRS from a trapdoor with `a`, `b`, `d`, `x` non-zero and
/// then calling `update` any number of times in phase one, then any number
/// of times in phase two, gives an SRS and transcript that pass every check
/// of the naive verifier.
#[verifier::spinoff_prover]
pub proof fn law_updates_verify(
    qap: QAP,
    srss: Seq<SRS>,
    batches: Seq<BatchProof>,
    phases: Seq<Phase>,
    n1: int,
    trp: Trapdoor,
)
    requires
        qap.wf(),
        setup_matches_verify(qap),
        qap.n >= 2,
        SRS::is_initial(srss[0], qap, trp),
        scalar_value(trp.0) % order() != 0 && scalar_value(trp.1) % order() != 0
            && scalar_value(trp.3) % order() != 0,
        update_run(qap, srss, batches, phases, n1),
    ensures
        ceremony_holds_naive(qap, srss[phases.len() as int], batches[phases.len() as int]),
        batch1_in_groups(batches[phases.len() as int].batch_1@),
        chain_in_groups(batches[phases.len() as int].batch_2@),
{
    let len = phases.len() as int;
    let ws = Seq::new(phases.len(), |k: int| step_witness(qap, srss, batches, phases, k));
    lemma_update_run_prefix(qap, srss, batches, phases, n1, len);
    assert forall|k: int| 0 <= k < len implies witness_fits(#[trigger] ws[k], phases[k])
        && srs_updated(srss[k], srss[k + 1], qap, ws[k]) by {
        assert(updated_in_phase(qap, srss[k], srss[k + 1], batches[k], batches[k + 1], phases[k]));
    }
    assert forall|k: int| 0 <= k < len implies srs_updated(srss[k], #[trigger] srss[k + 1], qap, ws[k]) by {
        assert(witness_fits(ws[k], phases[k]));
    }
    assert forall|k: int| 0 <= k < n1 implies (#[trigger] ws[k]) is ONE by {
        assert(witness_fits(ws[k], phases[k]));
        assert(phases[k] == Phase::ONE);
    }
    assert forall|k: int| n1 <= k < len implies (#[trigger] ws[k]) is TWO by {
        assert(witness_fits(ws[k], phases[k]));
        assert(phases[k] == Phase::TWO);
    }
    assert forall|k: int, j: int| 0 <= k < len && 0 <= j < 3 implies 0 <= #[trigger] witness_value(
        ws[k],
        j,
    ) < order() by {
        assert(witness_fits(ws[k], phases[k]));
    }
    assert forall|k: int, j: int| 0 <= k < n1 && 0 <= j < 3 implies invertible(
        #[trigger] witness_value(ws[k], j),
    ) by {
        assert(witness_fits(ws[k], phases[k]));
        assert(phases[k] == Phase::ONE);
    }
    let b = batches[len];
    assert forall|k: int| 0 <= k < n1 implies proofs_for(
        srss[k],
        ws[k],
        UpdateProof::ONE((#[trigger] b.batch_1@[k])@[0], b.batch_1@[k]@[1], b.batch_1@[k]@[2]),
    ) by {}
    assert forall|k: int| n1 <= k < len implies proofs_for(
        srss[k],
        ws[k],
        UpdateProof::TWO(#[trigger] b.batch_2@[k - n1]),
    ) by {}
    assert(b.batch_1@.len() == n1 && b.batch_2@.len() == len - n1);
    assert(honest_ceremony(qap, srss, ws, n1, trp, b));
    law_ceremony_verifies(qap, srss, ws, n1, trp, b);
}

} // verus!
