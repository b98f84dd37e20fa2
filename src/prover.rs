//! Proofs of knowledge of the scalars of an update: the discrete-log sigma
//! protocol (`Dlog`), the chained Rho proofs, and their batch.
use vstd::prelude::*;
use crate::backend::{
    fadd, fmul, g1_encoding, g1_ok, g2_encoding, g2_ok, hash_log, in_g1, in_g2, log1, log2, log_t,
    order, scalar_value, RcBls12_381,
};
use crate::flow::Phase;
use crate::srs::SRS;
use bls12_381::{G1Affine, G2Affine, Gt, Scalar};

verus! {

/// Why a proof was rejected.
#[derive(Debug, Clone, Copy, PartialEq, Eq, Structural)]
pub enum ProofError {
    DlogFailure,
    RhoFailure,
    BatchFailure,
}

/// The byte string that the random oracle hashes for a commitment.
pub open spec fn oracle_input(c: (G1Affine, G2Affine)) -> Seq<u8> {
    g1_encoding(c.0) + g2_encoding(c.1)
}

/// The logarithm of the random oracle's answer for a commitment.
pub open spec fn oracle_log(c: (G1Affine, G2Affine)) -> int {
    hash_log(oracle_input(c))
}

/// The two pairing equations of the sigma protocol, in the exponent:
/// `e(A, H) = e(G, B)` and `e(prf, H) = e(R, B)` with `R` the oracle's answer.
/// Here `lg` and `lh` are the logarithms of the generators `G` and `H`.
pub open spec fn dlog_holds(lg: int, lh: int, c: (G1Affine, G2Affine), prf: G1Affine) -> bool {
    &&& fmul(log1(c.0), lh) == fmul(lg, log2(c.1))
    &&& fmul(log1(prf), lh) == fmul(oracle_log(c), log2(c.1))
}

/// Reducing a reduced value again changes nothing.
pub proof fn lemma_mod_canonical(x: int)
    ensures
        0 <= x % order() < order(),
        (x % order()) % order() == x % order(),
{
    vstd::arithmetic::div_mod::lemma_mod_bound(x, order());
    vstd::arithmetic::div_mod::lemma_small_mod((x % order()) as nat, order() as nat);
}

/// Pairs `e(pa, qa)` and `e(pb, qb)` and compares them.
pub(crate) fn pairings_agree(pa: &G1Affine, qa: &G2Affine, pb: &G1Affine, qb: &G2Affine) -> (r: bool)
    ensures
        in_g1(*pa) && in_g2(*qa) && in_g1(*pb) && in_g2(*qb) ==> r == (fmul(log1(*pa), log2(*qa))
            == fmul(log1(*pb), log2(*qb))),
{
    let left = RcBls12_381::pair(pa, qa);
    let right = RcBls12_381::pair(pb, qb);
    proof {
        lemma_mod_canonical(log1(*pa) * log2(*qa));
        lemma_mod_canonical(log1(*pb) * log2(*qb));
    }
    RcBls12_381::ct_eq_t(&left, &right)
}

/// The non-interactive proof of knowledge of `w` in a commitment
/// `(w * G, w * H)`, by Fiat-Shamir over a random oracle into G1.
pub struct Dlog;

impl Dlog {
    /// The random oracle: hash to G1 of `bytes1(c.0) || bytes2(c.1)`.
    pub fn rndoracle(c: &(G1Affine, G2Affine)) -> (r: G1Affine)
        ensures
            g1_ok(r),
            log1(r) == oracle_log(*c),
    {
        let b1 = RcBls12_381::bytes1(&c.0);
        let b2 = RcBls12_381::bytes2(&c.1);
        let mut bytes: Vec<u8> = Vec::new();
        let mut i: usize = 0;
        while i < 96
            invariant
                0 <= i <= 96,
                b1@.len() == 96,
                bytes@ == b1@.subrange(0, i as int),
            decreases 96 - i,
        {
            bytes.push(b1[i]);
            proof {
                assert(b1@.subrange(0, i + 1) =~= b1@.subrange(0, i as int).push(b1@[i as int]));
            }
            i = i + 1;
        }
        let mut j: usize = 0;
        while j < 96
            invariant
                0 <= j <= 96,
                b1@.len() == 96,
                b2@.len() == 96,
                bytes@ == b1@ + b2@.subrange(0, j as int),
            decreases 96 - j,
        {
            bytes.push(b2[j]);
            proof {
                assert(b1@ + b2@.subrange(0, j + 1) =~= (b1@ + b2@.subrange(0, j as int)).push(
                    b2@[j as int],
                ));
            }
            j = j + 1;
        }
        proof {
            assert(b1@.subrange(0, 96) =~= b1@);
            assert(b2@.subrange(0, 96) =~= b2@);
        }
        RcBls12_381::hashG1(&bytes)
    }

    /// The proof `w * R` for the oracle's answer `R` on the commitment.
    pub fn prove(c: &(G1Affine, G2Affine), witness: Scalar) -> (r: G1Affine)
        ensures
            g1_ok(r),
            log1(r) == fmul(scalar_value(witness), oracle_log(*c)),
    {
        let oracle = Self::rndoracle(c);
        RcBls12_381::smul1(&witness, &oracle)
    }

    /// Accepts exactly when `e(A, H) = e(G, B)` and `e(prf, H) = e(R, B)`.
    pub fn verify(ctx: (&G1Affine, &G2Affine), c: &(G1Affine, G2Affine), prf: &G1Affine) -> (r:
        Result<bool, ProofError>)
        ensures
            r is Ok ==> r->Ok_0,
            r is Err ==> r->Err_0 == ProofError::DlogFailure,
            in_g1(*ctx.0) && in_g2(*ctx.1) && in_g1(c.0) && in_g2(c.1) && in_g1(*prf) ==> (r is Ok
                <==> dlog_holds(log1(*ctx.0), log2(*ctx.1), *c, *prf)),
    {
        let (g, h) = ctx;
        let oracle = Self::rndoracle(c);
        let first = pairings_agree(&c.0, h, g, &c.1);
        let second = pairings_agree(prf, h, &oracle, &c.1);
        if first && second {
            Ok(true)
        } else {
            Err(ProofError::DlogFailure)
        }
    }
}

/// The random oracle on a commitment `phi`.
pub fn rndoracle(phi: (G1Affine, G2Affine)) -> (r: G1Affine)
    ensures
        g1_ok(r),
        log1(r) == oracle_log(phi),
{
    Dlog::rndoracle(&phi)
}

/// The sigma proof `witness * R` for the commitment `phi`.
pub fn prove_dlog(phi: (G1Affine, G2Affine), witness: Scalar) -> (r: G1Affine)
    ensures
        g1_ok(r),
        log1(r) == fmul(scalar_value(witness), oracle_log(phi)),
{
    Dlog::prove(&phi, witness)
}

/// Whether the sigma proof holds for the commitment `phi`.
pub fn verify_dlog(g: &G1Affine, h: &G2Affine, phi: (G1Affine, G2Affine), proof_point: G1Affine) -> (r:
    bool)
    ensures
        in_g1(*g) && in_g2(*h) && in_g1(phi.0) && in_g2(phi.1) && in_g1(proof_point) ==> r
            == dlog_holds(log1(*g), log2(*h), phi, proof_point),
{
    match Dlog::verify((g, h), &phi, &proof_point) {
        Ok(b) => b,
        Err(_) => false,
    }
}

/// A proof that an element of the SRS was multiplied by a fresh scalar `w`:
/// `aux = w * base`, the commitment `(w * G, w * H)` and the sigma proof.
#[derive(Debug, Clone, Copy, PartialEq)]
pub struct RhoProof {
    pub aux: G1Affine,
    pub com: (G1Affine, G2Affine),
    pub prf: G1Affine,
}

/// All points of a Rho proof lie in their groups.
pub open spec fn rho_in_groups(rho: RhoProof) -> bool {
    g1_ok(rho.aux) && g1_ok(rho.com.0) && g2_ok(rho.com.1) && g1_ok(rho.prf)
}

/// The checks on one Rho proof: its sigma proof, and when there is a
/// previous proof, the chain `e(aux, H) = e(prev.aux, B)`.
pub open spec fn rho_holds(lg: int, lh: int, rho: RhoProof, prev: Option<RhoProof>) -> bool {
    &&& dlog_holds(lg, lh, rho.com, rho.prf)
    &&& (prev is Some ==> fmul(log1(rho.aux), lh) == fmul(
        log1(prev->Some_0.aux),
        log2(rho.com.1),
    ))
}

/// The Rho proof that an honest contributor with scalar `w` produces on `base`.
pub open spec fn honest_rho(lg: int, lh: int, base: G1Affine, w: int, rho: RhoProof) -> bool {
    &&& log1(rho.aux) == fmul(w, log1(base))
    &&& log1(rho.com.0) == fmul(w, lg)
    &&& log2(rho.com.1) == fmul(w, lh)
    &&& log1(rho.prf) == fmul(w, oracle_log(rho.com))
    &&& g1_ok(rho.aux) && g1_ok(rho.com.0) && g2_ok(rho.com.1) && g1_ok(rho.prf)
}

/// The scalars that one contributor samples: `(a', b', x')` in phase one,
/// `d'` in phase two.
#[derive(Debug, Clone, Copy)]
pub enum Witness {
    ONE(Scalar, Scalar, Scalar),
    TWO(Scalar),
}

impl RhoProof {
    /// The proof for multiplying `base` by `w`.
    pub fn create(ctx: (&G1Affine, &G2Affine), base: &G1Affine, w: &Scalar) -> (r: Self)
        ensures
            in_g1(*ctx.0) && in_g2(*ctx.1) && in_g1(*base) ==> honest_rho(
                log1(*ctx.0),
                log2(*ctx.1),
                *base,
                scalar_value(*w),
                r,
            ),
    {
        let (g, h) = ctx;
        let aux = RcBls12_381::smul1(w, base);
        let com = (RcBls12_381::smul1(w, g), RcBls12_381::smul2(w, h));
        let prf = Dlog::prove(&com, *w);
        RhoProof { aux, com, prf }
    }

    /// Accepts exactly when the sigma proof holds and, given a previous
    /// proof, `e(aux, H) = e(prev.aux, B)`.
    pub fn verify(&self, ctx: (&G1Affine, &G2Affine), rho: Option<&Self>) -> (r: Result<
        bool,
        ProofError,
    >)
        ensures
            r is Ok ==> r->Ok_0,
            r is Err ==> r->Err_0 == ProofError::RhoFailure,
            in_g1(*ctx.0) && in_g2(*ctx.1) && rho_in_groups(*self) && (rho is Some ==> in_g1(
                rho->Some_0.aux,
            )) ==> (r is Ok <==> rho_holds(
                log1(*ctx.0),
                log2(*ctx.1),
                *self,
                match rho {
                    Some(p) => Some(*p),
                    None => None,
                },
            )),
    {
        let (_, h) = ctx;
        let out1 = match Dlog::verify(ctx, &self.com, &self.prf) {
            Ok(b) => b,
            Err(_) => false,
        };
        let out2 = match rho {
            Some(prev) => pairings_agree(&self.aux, h, &prev.aux, &self.com.1),
            None => true,
        };
        if out1 && out2 {
            Ok(true)
        } else {
            Err(ProofError::RhoFailure)
        }
    }
}

/// `sum_{lo <= i < hi} s[i] p[i]` in the scalar field.
pub open spec fn lin(s: Seq<int>, p: Seq<int>, lo: int, hi: int) -> int
    decreases hi - lo,
{
    if hi <= lo {
        0
    } else {
        fadd(lin(s, p, lo, hi - 1), fmul(s[hi - 1], p[hi - 1]))
    }
}

/// `sum_{lo <= i < hi} (s[i] p[i]) q[i]` in the scalar field: the logarithm
/// of the sum of the pairings `e(s[i] P[i], Q[i])`.
pub open spec fn lin3(s: Seq<int>, p: Seq<int>, q: Seq<int>, lo: int, hi: int) -> int
    decreases hi - lo,
{
    if hi <= lo {
        0
    } else {
        fadd(lin3(s, p, q, lo, hi - 1), fmul(fmul(s[hi - 1], p[hi - 1]), q[hi - 1]))
    }
}

/// The logarithms of points of G1.
pub open spec fn logs1(p: Seq<G1Affine>) -> Seq<int> {
    p.map_values(|x: G1Affine| log1(x))
}

/// The logarithms of points of G2.
pub open spec fn logs2(p: Seq<G2Affine>) -> Seq<int> {
    p.map_values(|x: G2Affine| log2(x))
}

/// The values of scalars.
pub open spec fn svalues(s: Seq<Scalar>) -> Seq<int> {
    s.map_values(|x: Scalar| scalar_value(x))
}

/// `sum_{lo <= i < |p|} s[i] p[i]` in G1.
pub fn lincomb1(s: &Vec<Scalar>, p: &Vec<G1Affine>, lo: usize) -> (r: G1Affine)
    requires
        s@.len() >= p@.len(),
        lo <= p@.len(),
    ensures
        (forall|i: int| lo <= i < p@.len() ==> in_g1(#[trigger] p@[i])) ==> g1_ok(r) && log1(r)
            == lin(svalues(s@), logs1(p@), lo as int, p@.len() as int),
{
    let mut acc = RcBls12_381::zeroG1();
    let mut i: usize = lo;
    while i < p.len()
        invariant
            s@.len() >= p@.len(),
            lo <= i <= p@.len(),
            (forall|k: int| lo <= k < p@.len() ==> in_g1(#[trigger] p@[k])) ==> g1_ok(acc) && log1(
                acc,
            ) == lin(svalues(s@), logs1(p@), lo as int, i as int),
        decreases p@.len() - i,
    {
        let term = RcBls12_381::smul1(&s[i], &p[i]);
        acc = RcBls12_381::add1_pair(&acc, &term);
        i = i + 1;
    }
    acc
}

/// `sum_{lo <= i < |p|} s[i] p[i]` in G2.
pub fn lincomb2(s: &Vec<Scalar>, p: &Vec<G2Affine>, lo: usize) -> (r: G2Affine)
    requires
        s@.len() >= p@.len(),
        lo <= p@.len(),
    ensures
        (forall|i: int| lo <= i < p@.len() ==> in_g2(#[trigger] p@[i])) ==> g2_ok(r) && log2(r)
            == lin(svalues(s@), logs2(p@), lo as int, p@.len() as int),
{
    let mut acc = RcBls12_381::zeroG2();
    let mut i: usize = lo;
    while i < p.len()
        invariant
            s@.len() >= p@.len(),
            lo <= i <= p@.len(),
            (forall|k: int| lo <= k < p@.len() ==> in_g2(#[trigger] p@[k])) ==> g2_ok(acc) && log2(
                acc,
            ) == lin(svalues(s@), logs2(p@), lo as int, i as int),
        decreases p@.len() - i,
    {
        let term = RcBls12_381::smul2(&s[i], &p[i]);
        acc = RcBls12_381::add2_pair(&acc, &term);
        i = i + 1;
    }
    acc
}

/// `sum_{lo <= i < |p|} e(s[i] p[i], q[i])` in Gt.
pub fn pairsum(s: &Vec<Scalar>, p: &Vec<G1Affine>, q: &Vec<G2Affine>, lo: usize) -> (r: Gt)
    requires
        s@.len() >= p@.len(),
        q@.len() == p@.len(),
        lo <= p@.len(),
    ensures
        (forall|i: int| lo <= i < p@.len() ==> in_g1(#[trigger] p@[i]) && in_g2(q@[i])) ==> log_t(
            r,
        ) == lin3(svalues(s@), logs1(p@), logs2(q@), lo as int, p@.len() as int),
{
    let mut acc = RcBls12_381::unit();
    let mut i: usize = lo;
    while i < p.len()
        invariant
            s@.len() >= p@.len(),
            q@.len() == p@.len(),
            lo <= i <= p@.len(),
            (forall|k: int| lo <= k < p@.len() ==> in_g1(#[trigger] p@[k]) && in_g2(q@[k]))
                ==> log_t(acc) == lin3(svalues(s@), logs1(p@), logs2(q@), lo as int, i as int),
        decreases p@.len() - i,
    {
        let scaled = RcBls12_381::smul1(&s[i], &p[i]);
        let term = RcBls12_381::pair(&scaled, &q[i]);
        let ghost before = acc;
        acc = RcBls12_381::add_t(&acc, &term);
        proof {
            if forall|k: int| lo <= k < p@.len() ==> in_g1(#[trigger] p@[k]) && in_g2(q@[k]) {
                assert(in_g1(p@[i as int]) && in_g2(q@[i as int]));
                assert(svalues(s@)[i as int] == scalar_value(s@[i as int]));
                assert(logs1(p@)[i as int] == log1(p@[i as int]));
                assert(logs2(q@)[i as int] == log2(q@[i as int]));
                assert(log_t(acc) == fadd(log_t(before), log_t(term)));
                assert(log1(scaled) == fmul(scalar_value(s@[i as int]), log1(p@[i as int])));
                assert(log_t(term) == fmul(log1(scaled), log2(q@[i as int])));
                assert(log_t(before) == lin3(svalues(s@), logs1(p@), logs2(q@), lo as int, i as int));
                assert(lin3(svalues(s@), logs1(p@), logs2(q@), lo as int, i + 1) == fadd(
                    lin3(svalues(s@), logs1(p@), logs2(q@), lo as int, i as int),
                    fmul(fmul(svalues(s@)[i as int], logs1(p@)[i as int]), logs2(q@)[i as int]),
                ));
            }
        }
        i = i + 1;
    }
    acc
}

/// Every proof of the chain has its points in their groups.
pub open spec fn chain_in_groups(chain: Seq<RhoProof>) -> bool {
    forall|i: int| 0 <= i < chain.len() ==> rho_in_groups(#[trigger] chain[i])
}

/// The proof before the `i`-th one of a chain, if any.
pub open spec fn previous(chain: Seq<RhoProof>, i: int) -> Option<RhoProof> {
    if i == 0 {
        None
    } else {
        Some(chain[i - 1])
    }
}

/// Every proof of the chain holds against its predecessor, with the fixed
/// generators (of logarithm one).
pub open spec fn chain_holds(chain: Seq<RhoProof>) -> bool {
    forall|i: int| 0 <= i < chain.len() ==> rho_holds(1, 1, #[trigger] chain[i], previous(chain, i))
}

/// `log1(aux)` of each proof.
pub open spec fn aux_logs(chain: Seq<RhoProof>) -> Seq<int> {
    chain.map_values(|r: RhoProof| log1(r.aux))
}

/// `log1(aux)` of each proof's predecessor (of itself for the first).
pub open spec fn prev_aux_logs(chain: Seq<RhoProof>) -> Seq<int> {
    Seq::new(chain.len(), |i: int| log1(chain[if i == 0 { 0 } else { i - 1 }].aux))
}

/// The logarithms of the commitments' first points.
pub open spec fn com0_logs(chain: Seq<RhoProof>) -> Seq<int> {
    chain.map_values(|r: RhoProof| log1(r.com.0))
}

/// The logarithms of the commitments' second points.
pub open spec fn com1_logs(chain: Seq<RhoProof>) -> Seq<int> {
    chain.map_values(|r: RhoProof| log2(r.com.1))
}

/// The logarithms of the sigma proofs.
pub open spec fn prf_logs(chain: Seq<RhoProof>) -> Seq<int> {
    chain.map_values(|r: RhoProof| log1(r.prf))
}

/// The logarithms of the oracle's answers on the commitments.
pub open spec fn oracle_logs(chain: Seq<RhoProof>) -> Seq<int> {
    chain.map_values(|r: RhoProof| oracle_log(r.com))
}

/// The batched checks of a chain under the random weights `s`:
/// `e(sum_{i>=1} s_i aux_i, H) = sum_{i>=1} e(s_i aux_{i-1}, B_i)`,
/// `e(sum s_i A_i, H) = e(G, sum s_i B_i)` and
/// `e(sum s_i prf_i, H) = sum e(s_i R_i, B_i)`.
pub open spec fn chain_holds_batched(chain: Seq<RhoProof>, s: Seq<int>) -> bool {
    let len = chain.len() as int;
    &&& fmul(lin(s, aux_logs(chain), 1, len), 1) == lin3(s, prev_aux_logs(chain), com1_logs(chain), 1, len)
    &&& fmul(lin(s, com0_logs(chain), 0, len), 1) == fmul(1, lin(s, com1_logs(chain), 0, len))
    &&& fmul(lin(s, prf_logs(chain), 0, len), 1) == lin3(s, oracle_logs(chain), com1_logs(chain), 0, len)
}

/// Checks every proof of the chain against its predecessor.
pub fn verify_chain_naive(chain: &Vec<RhoProof>) -> (r: bool)
    ensures
        chain_in_groups(chain@) ==> r == chain_holds(chain@),
{
    let g = RcBls12_381::genG1();
    let h = RcBls12_381::genG2();
    let mut ok = true;
    let mut i: usize = 0;
    while i < chain.len()
        invariant
            0 <= i <= chain@.len(),
            g1_ok(g) && log1(g) == 1 && g2_ok(h) && log2(h) == 1,
            chain_in_groups(chain@) ==> ok == forall|k: int|
                0 <= k < i ==> rho_holds(1, 1, #[trigger] chain@[k], previous(chain@, k)),
        decreases chain@.len() - i,
    {
        let prev = if i == 0 {
            None
        } else {
            Some(&chain[i - 1])
        };
        let res = chain[i].verify((&g, &h), prev);
        let c = match res {
            Ok(b) => b,
            Err(_) => false,
        };
        proof {
            if chain_in_groups(chain@) {
                assert(rho_in_groups(chain@[i as int]));
                if i > 0 {
                    assert(rho_in_groups(chain@[i - 1]));
                }
                assert(c == rho_holds(1, 1, chain@[i as int], previous(chain@, i as int)));
            }
        }
        ok = ok && c;
        i = i + 1;
    }
    ok
}

/// The points of the chain, one vector per kind, and the oracle's answers.
fn split_chain(chain: &Vec<RhoProof>) -> (r: (
    Vec<G1Affine>,
    Vec<G1Affine>,
    Vec<G1Affine>,
    Vec<G2Affine>,
    Vec<G1Affine>,
    Vec<G1Affine>,
))
    ensures
        r.0@.len() == chain@.len() && logs1(r.0@) == aux_logs(chain@),
        r.1@.len() == chain@.len() && logs1(r.1@) == prev_aux_logs(chain@),
        r.2@.len() == chain@.len() && logs1(r.2@) == com0_logs(chain@),
        r.3@.len() == chain@.len() && logs2(r.3@) == com1_logs(chain@),
        r.4@.len() == chain@.len() && logs1(r.4@) == prf_logs(chain@),
        r.5@.len() == chain@.len() && logs1(r.5@) == oracle_logs(chain@),
        chain_in_groups(chain@) ==> forall|i: int| 0 <= i < chain@.len() ==> in_g1(#[trigger] r.0@[i]),
        chain_in_groups(chain@) ==> forall|i: int| 0 <= i < chain@.len() ==> in_g1(#[trigger] r.1@[i]),
        chain_in_groups(chain@) ==> forall|i: int| 0 <= i < chain@.len() ==> in_g1(#[trigger] r.2@[i]),
        chain_in_groups(chain@) ==> forall|i: int| 0 <= i < chain@.len() ==> in_g2(#[trigger] r.3@[i]),
        chain_in_groups(chain@) ==> forall|i: int| 0 <= i < chain@.len() ==> in_g1(#[trigger] r.4@[i]),
        forall|i: int| 0 <= i < chain@.len() ==> g1_ok(#[trigger] r.5@[i]),
{
    let mut aux: Vec<G1Affine> = Vec::new();
    let mut prev: Vec<G1Affine> = Vec::new();
    let mut com0: Vec<G1Affine> = Vec::new();
    let mut com1: Vec<G2Affine> = Vec::new();
    let mut prf: Vec<G1Affine> = Vec::new();
    let mut oracle: Vec<G1Affine> = Vec::new();
    let mut i: usize = 0;
    while i < chain.len()
        invariant
            0 <= i <= chain@.len(),
            aux@.len() == i && prev@.len() == i && com0@.len() == i && com1@.len() == i
                && prf@.len() == i && oracle@.len() == i,
            forall|k: int| 0 <= k < i ==> (#[trigger] aux@[k]) == chain@[k].aux,
            forall|k: int| 0 <= k < i ==> (#[trigger] prev@[k]) == chain@[if k == 0 { 0 } else { k - 1 }].aux,
            forall|k: int| 0 <= k < i ==> (#[trigger] com0@[k]) == chain@[k].com.0,
            forall|k: int| 0 <= k < i ==> (#[trigger] com1@[k]) == chain@[k].com.1,
            forall|k: int| 0 <= k < i ==> (#[trigger] prf@[k]) == chain@[k].prf,
            forall|k: int|
                0 <= k < i ==> g1_ok(#[trigger] oracle@[k]) && log1(oracle@[k]) == oracle_log(
                    chain@[k].com,
                ),
        decreases chain@.len() - i,
    {
        let rho = chain[i];
        aux.push(rho.aux);
        if i == 0 {
            prev.push(rho.aux);
        } else {
            prev.push(chain[i - 1].aux);
        }
        com0.push(rho.com.0);
        com1.push(rho.com.1);
        prf.push(rho.prf);
        oracle.push(Dlog::rndoracle(&rho.com));
        i = i + 1;
    }
    proof {
        assert(logs1(aux@) =~= aux_logs(chain@));
        assert(logs1(prev@) =~= prev_aux_logs(chain@));
        assert(logs1(com0@) =~= com0_logs(chain@));
        assert(logs2(com1@) =~= com1_logs(chain@));
        assert(logs1(prf@) =~= prf_logs(chain@));
        assert(logs1(oracle@) =~= oracle_logs(chain@));
        if chain_in_groups(chain@) {
            assert forall|i: int| 0 <= i < chain@.len() implies in_g1(aux@[i]) && in_g1(
                prev@[i],
            ) && in_g1(com0@[i]) && in_g2(com1@[i]) && in_g1(prf@[i]) by {
                assert(aux@[i] == chain@[i].aux);
                assert(prev@[i] == chain@[if i == 0 { 0 } else { i - 1 }].aux);
                assert(com0@[i] == chain@[i].com.0);
                assert(com1@[i] == chain@[i].com.1);
                assert(prf@[i] == chain@[i].prf);
                assert(rho_in_groups(chain@[i]));
                assert(rho_in_groups(chain@[if i == 0 { 0 } else { i - 1 }]));
            }
        }
    }
    (aux, prev, com0, com1, prf, oracle)
}

/// The batched checks of a chain under the weights `s`.
pub fn verify_chain_batched(chain: &Vec<RhoProof>, s: &Vec<Scalar>) -> (r: bool)
    requires
        s@.len() >= chain@.len(),
    ensures
        chain_in_groups(chain@) ==> r == chain_holds_batched(chain@, svalues(s@)),
{
    let g = RcBls12_381::genG1();
    let h = RcBls12_381::genG2();
    let (aux, prev, com0, com1, prf, oracle) = split_chain(chain);
    let len = chain.len();
    let start: usize = if len == 0 {
        0
    } else {
        1
    };
    let a = lincomb1(s, &aux, start);
    let b = pairsum(s, &prev, &com1, start);
    let c = lincomb1(s, &com0, 0);
    let d = lincomb2(s, &com1, 0);
    let e = lincomb1(s, &prf, 0);
    let f = pairsum(s, &oracle, &com1, 0);
    let pa = RcBls12_381::pair(&a, &h);
    let out_a = RcBls12_381::ct_eq_t(&pa, &b);
    let out_b = pairings_agree(&c, &h, &g, &d);
    let pe = RcBls12_381::pair(&e, &h);
    let out_c = RcBls12_381::ct_eq_t(&pe, &f);
    proof {
        let ghost sv = svalues(s@);
        if len == 0 {
            assert(lin(sv, aux_logs(chain@), 1, 0) == 0);
            assert(lin3(sv, prev_aux_logs(chain@), com1_logs(chain@), 1, 0) == 0);
        }
        if chain_in_groups(chain@) {
            lemma_mod_canonical(log1(a) * 1);
            lemma_mod_canonical(log1(e) * 1);
            lemma_lin3_canonical(sv, prev_aux_logs(chain@), com1_logs(chain@), start as int, len as int);
            lemma_lin3_canonical(sv, oracle_logs(chain@), com1_logs(chain@), 0, len as int);
            let ghost l = len as int;
            assert(log1(a) == lin(sv, aux_logs(chain@), start as int, l));
            assert(log_t(b) == lin3(sv, prev_aux_logs(chain@), com1_logs(chain@), start as int, l));
            assert(out_a == (fmul(lin(sv, aux_logs(chain@), 1, l), 1) == lin3(sv, prev_aux_logs(chain@), com1_logs(chain@), 1, l)));
            assert(out_b == (fmul(lin(sv, com0_logs(chain@), 0, l), 1) == fmul(1, lin(sv, com1_logs(chain@), 0, l))));
            assert(out_c == (fmul(lin(sv, prf_logs(chain@), 0, l), 1) == lin3(sv, oracle_logs(chain@), com1_logs(chain@), 0, l)));
        }
    }
    out_a && out_b && out_c
}

/// A sum in the field is already reduced.
pub proof fn lemma_lin3_canonical(s: Seq<int>, p: Seq<int>, q: Seq<int>, lo: int, hi: int)
    ensures
        lin3(s, p, q, lo, hi) % order() == lin3(s, p, q, lo, hi),
    decreases hi - lo,
{
    if hi > lo {
        lemma_mod_canonical(lin3(s, p, q, lo, hi - 1) + fmul(fmul(s[hi - 1], p[hi - 1]), q[hi - 1]));
    } else {
        vstd::arithmetic::div_mod::lemma_small_mod(0, order() as nat);
    }
}

/// `p` holds the honest proofs for the witness on the pre-update SRS (for
/// the bases that lie in G1).
pub open spec fn proofs_for(srs: SRS, w: Witness, p: UpdateProof) -> bool {
    match (w, p) {
        (Witness::ONE(a, b, x), UpdateProof::ONE(ra, rb, rx)) => (in_g1(srs.u.1@[0].0)
            ==> honest_rho(1, 1, srs.u.1@[0].0, scalar_value(a), ra)) && (in_g1(srs.u.1@[0].1)
            ==> honest_rho(1, 1, srs.u.1@[0].1, scalar_value(b), rb)) && (in_g1(srs.u.0@[1].0)
            ==> honest_rho(1, 1, srs.u.0@[1].0, scalar_value(x), rx)),
        (Witness::TWO(d), UpdateProof::TWO(rd)) => in_g1(srs.s.0) ==> honest_rho(
            1,
            1,
            srs.s.0,
            scalar_value(d),
            rd,
        ),
        _ => false,
    }
}

/// The proofs of one update: three in phase one (for `a'`, `b'`, `x'`),
/// one in phase two (for `d'`).
#[derive(Debug, PartialEq)]
pub enum UpdateProof {
    ONE(RhoProof, RhoProof, RhoProof),
    TWO(RhoProof),
}

impl UpdateProof {
    /// The proofs for a witness, on the pre-update SRS: `a'` on `U1[0].0`,
    /// `b'` on `U1[0].1`, `x'` on `U0[1].0`; `d'` on `S.0`.
    pub fn create(srs: &SRS, w: &Witness) -> (r: Self)
        requires
            srs.u.0@.len() >= 2,
            srs.u.1@.len() >= 1,
        ensures
            proofs_for(*srs, *w, r),
    {
        let g = RcBls12_381::genG1();
        let h = RcBls12_381::genG2();
        match w {
            Witness::ONE(a, b, x) => {
                let ra = RhoProof::create((&g, &h), &srs.u.1[0].0, a);
                let rb = RhoProof::create((&g, &h), &srs.u.1[0].1, b);
                let rx = RhoProof::create((&g, &h), &srs.u.0[1].0, x);
                UpdateProof::ONE(ra, rb, rx)
            },
            Witness::TWO(d) => UpdateProof::TWO(RhoProof::create((&g, &h), &srs.s.0, d)),
        }
    }
}

/// The `j`-th proof of every phase-one update, in contributor order.
pub open spec fn column(b: Seq<[RhoProof; 3]>, j: int) -> Seq<RhoProof> {
    Seq::new(b.len(), |i: int| b[i]@[j])
}

/// Every proof of the phase-one list has its points in their groups.
pub open spec fn batch1_in_groups(b: Seq<[RhoProof; 3]>) -> bool {
    forall|j: int| 0 <= j < 3 ==> chain_in_groups(#[trigger] column(b, j))
}

/// The SRS points that the phase-one tail checks read lie in G1.
pub open spec fn tail1_points_ok(srs: SRS) -> bool {
    srs.u.0@.len() >= 2 && srs.u.1@.len() >= 1 ==> g1_ok(srs.u.0@[1].0) && g1_ok(srs.u.1@[0].0)
        && g1_ok(srs.u.1@[0].1)
}

/// The last phase-one proofs end at the SRS: their `aux` are `U1[0].0`,
/// `U1[0].1` and `U0[1].0`, none of them zero.
pub open spec fn tail1_holds(srs: SRS, b: Seq<[RhoProof; 3]>) -> bool {
    b.len() == 0 || {
        let last = b[b.len() - 1];
        &&& srs.u.0@.len() >= 2 && srs.u.1@.len() >= 1
        &&& log1(srs.u.0@[1].0) == log1(last@[2].aux)
        &&& log1(srs.u.1@[0].0) == log1(last@[0].aux)
        &&& log1(srs.u.1@[0].1) == log1(last@[1].aux)
        &&& log1(last@[0].aux) != 0 && log1(last@[1].aux) != 0 && log1(last@[2].aux) != 0
    }
}

/// `e(S.0, H) = e(G, S.1)`, and the last phase-two proof ends at `S.0`
/// with a non-zero `aux`.
pub open spec fn tail2_holds(srs: SRS, b: Seq<RhoProof>) -> bool {
    &&& fmul(log1(srs.s.0), 1) == fmul(1, log2(srs.s.1))
    &&& (b.len() == 0 || (log1(srs.s.0) == log1(b[b.len() - 1].aux) && log1(b[b.len() - 1].aux)
        != 0))
}

/// The naive check of the phase-one list.
pub open spec fn naive1_holds(srs: SRS, b: Seq<[RhoProof; 3]>) -> bool {
    &&& forall|j: int| 0 <= j < 3 ==> chain_holds(#[trigger] column(b, j))
    &&& tail1_holds(srs, b)
}

/// The batched check of the phase-one list under the weights `s`.
pub open spec fn batched1_holds(srs: SRS, b: Seq<[RhoProof; 3]>, s: Seq<int>) -> bool {
    &&& forall|j: int| 0 <= j < 3 ==> chain_holds_batched(#[trigger] column(b, j), s)
    &&& tail1_holds(srs, b)
}

/// `after` is `before` with the proofs of one more update at the end of the
/// list of their phase.
pub open spec fn appended(before: BatchProof, after: BatchProof, update: UpdateProof) -> bool {
    match update {
        UpdateProof::ONE(r1, r2, r3) => after.batch_1@ == before.batch_1@.push([r1, r2, r3])
            && after.batch_2@ == before.batch_2@,
        UpdateProof::TWO(r) => after.batch_1@ == before.batch_1@ && after.batch_2@
            == before.batch_2@.push(r),
    }
}

/// The collection of update proofs of a ceremony, in contributor order.
#[derive(Debug, PartialEq)]
pub struct BatchProof {
    pub batch_1: Vec<[RhoProof; 3]>,
    pub batch_2: Vec<RhoProof>,
}

impl BatchProof {
    /// The empty transcript.
    pub fn initiate() -> (r: Self)
        ensures
            r.batch_1@.len() == 0,
            r.batch_2@.len() == 0,
    {
        BatchProof { batch_1: Vec::new(), batch_2: Vec::new() }
    }

    /// Appends the proofs of one update to the list of its phase.
    pub fn append(&mut self, update: UpdateProof)
        ensures
            appended(*old(self), *final(self), update),
    {
        match update {
            UpdateProof::ONE(r1, r2, r3) => {
                self.batch_1.push([r1, r2, r3]);
            },
            UpdateProof::TWO(r) => {
                self.batch_2.push(r);
            },
        }
    }

    /// Appends the three proofs of a phase-one update.
    pub fn phase_1_append(&mut self, rhos: [RhoProof; 3])
        ensures
            final(self).batch_1@ == old(self).batch_1@.push(rhos),
            final(self).batch_2@ == old(self).batch_2@,
    {
        self.batch_1.push(rhos);
    }

    /// Appends the proof of a phase-two update.
    pub fn phase_2_append(&mut self, rho: RhoProof)
        ensures
            final(self).batch_1@ == old(self).batch_1@,
            final(self).batch_2@ == old(self).batch_2@.push(rho),
    {
        self.batch_2.push(rho);
    }

    /// The `j`-th proof of every phase-one update.
    fn column(&self, j: usize) -> (r: Vec<RhoProof>)
        requires
            j < 3,
        ensures
            r@ == column(self.batch_1@, j as int),
    {
        let mut r: Vec<RhoProof> = Vec::new();
        let mut i: usize = 0;
        while i < self.batch_1.len()
            invariant
                j < 3,
                0 <= i <= self.batch_1@.len(),
                r@ == column(self.batch_1@, j as int).subrange(0, i as int),
            decreases self.batch_1@.len() - i,
        {
            let entry = self.batch_1[i];
            r.push(entry[j]);
            proof {
                assert(column(self.batch_1@, j as int).subrange(0, i + 1) =~= column(
                    self.batch_1@,
                    j as int,
                ).subrange(0, i as int).push(entry@[j as int]));
            }
            i = i + 1;
        }
        proof {
            assert(column(self.batch_1@, j as int).subrange(0, i as int) =~= column(
                self.batch_1@,
                j as int,
            ));
        }
        r
    }

    /// The tail checks of phase one.
    fn tail1(&self, srs: &SRS) -> (r: bool)
        ensures
            batch1_in_groups(self.batch_1@) && tail1_points_ok(*srs) ==> r == tail1_holds(
                *srs,
                self.batch_1@,
            ),
    {
        let len = self.batch_1.len();
        if len == 0 {
            return true;
        }
        if srs.u.0.len() < 2 || srs.u.1.len() < 1 {
            return false;
        }
        let last = self.batch_1[len - 1];
        let zero = RcBls12_381::zeroG1();
        let e1 = RcBls12_381::ct_eq1(&srs.u.0[1].0, &last[2].aux);
        let e2 = RcBls12_381::ct_eq1(&srs.u.1[0].0, &last[0].aux);
        let e3 = RcBls12_381::ct_eq1(&srs.u.1[0].1, &last[1].aux);
        let z1 = RcBls12_381::ct_eq1(&last[2].aux, &zero);
        let z2 = RcBls12_381::ct_eq1(&last[0].aux, &zero);
        let z3 = RcBls12_381::ct_eq1(&last[1].aux, &zero);
        proof {
            if batch1_in_groups(self.batch_1@) {
                let k = len - 1;
                assert(chain_in_groups(column(self.batch_1@, 0)));
                assert(chain_in_groups(column(self.batch_1@, 1)));
                assert(chain_in_groups(column(self.batch_1@, 2)));
                assert(column(self.batch_1@, 0)[k as int] == last@[0]);
                assert(column(self.batch_1@, 1)[k as int] == last@[1]);
                assert(column(self.batch_1@, 2)[k as int] == last@[2]);
                assert(rho_in_groups(column(self.batch_1@, 0)[k as int]));
                assert(rho_in_groups(column(self.batch_1@, 1)[k as int]));
                assert(rho_in_groups(column(self.batch_1@, 2)[k as int]));
            }
        }
        e1 && e2 && e3 && !z1 && !z2 && !z3
    }

    /// The tail checks of phase two.
    fn tail2(&self, srs: &SRS) -> (r: bool)
        ensures
            chain_in_groups(self.batch_2@) && g1_ok(srs.s.0) && g2_ok(srs.s.1) ==> r == tail2_holds(
                *srs,
                self.batch_2@,
            ),
    {
        let g = RcBls12_381::genG1();
        let h = RcBls12_381::genG2();
        let out = pairings_agree(&srs.s.0, &h, &g, &srs.s.1);
        let len = self.batch_2.len();
        if len == 0 {
            return out;
        }
        let zero = RcBls12_381::zeroG1();
        let last = self.batch_2[len - 1];
        let e = RcBls12_381::ct_eq1(&srs.s.0, &last.aux);
        let z = RcBls12_381::ct_eq1(&last.aux, &zero);
        proof {
            if chain_in_groups(self.batch_2@) {
                assert(rho_in_groups(self.batch_2@[len - 1]));
            }
        }
        out && e && !z
    }

    /// Checks each proof of the phase's list against its predecessor, then
    /// that the list ends at the SRS.
    pub fn verify_naive(&self, srs: &SRS, phase: Phase) -> (r: Result<bool, ProofError>)
        ensures
            r is Ok ==> r->Ok_0,
            r is Err ==> r->Err_0 == ProofError::BatchFailure,
            phase == Phase::ONE && batch1_in_groups(self.batch_1@) && tail1_points_ok(*srs) ==> (r is Ok <==> naive1_holds(*srs, self.batch_1@)),
            phase == Phase::TWO && chain_in_groups(self.batch_2@) && g1_ok(srs.s.0) && g2_ok(srs.s.1)
                ==> (r is Ok <==> chain_holds(self.batch_2@) && tail2_holds(*srs, self.batch_2@)),
    {
        let ok = match phase {
            Phase::ONE => {
                let c0 = self.column(0);
                let c1 = self.column(1);
                let c2 = self.column(2);
                let o0 = verify_chain_naive(&c0);
                let o1 = verify_chain_naive(&c1);
                let o2 = verify_chain_naive(&c2);
                let tail = self.tail1(srs);
                proof {
                    if batch1_in_groups(self.batch_1@) {
                        assert(chain_in_groups(column(self.batch_1@, 0)));
                        assert(chain_in_groups(column(self.batch_1@, 1)));
                        assert(chain_in_groups(column(self.batch_1@, 2)));
                        assert((forall|j: int| 0 <= j < 3 ==> chain_holds(#[trigger] column(self.batch_1@, j)))
                            == (chain_holds(column(self.batch_1@, 0)) && chain_holds(column(self.batch_1@, 1))
                            && chain_holds(column(self.batch_1@, 2))));
                    }
                }
                o0 && o1 && o2 && tail
            },
            Phase::TWO => {
                let o = verify_chain_naive(&self.batch_2);
                let tail = self.tail2(srs);
                o && tail
            },
        };
        if ok {
            Ok(true)
        } else {
            Err(ProofError::BatchFailure)
        }
    }

    /// The batched variant of `verify_naive`, under the random weights `s`:
    /// one pairing equation per kind of check instead of one per proof.
    pub fn verify(&self, srs: &SRS, s: &Vec<Scalar>, phase: Phase) -> (r: Result<bool, ProofError>)
        requires
            s@.len() >= self.batch_1@.len(),
            s@.len() >= self.batch_2@.len(),
        ensures
            r is Ok ==> r->Ok_0,
            r is Err ==> r->Err_0 == ProofError::BatchFailure,
            phase == Phase::ONE && batch1_in_groups(self.batch_1@) && tail1_points_ok(*srs) ==> (r is Ok <==> batched1_holds(
                *srs,
                self.batch_1@,
                svalues(s@),
            )),
            phase == Phase::TWO && chain_in_groups(self.batch_2@) && g1_ok(srs.s.0) && g2_ok(srs.s.1)
                ==> (r is Ok <==> chain_holds_batched(self.batch_2@, svalues(s@)) && tail2_holds(
                *srs,
                self.batch_2@,
            )),
    {
        let ok = match phase {
            Phase::ONE => {
                let c0 = self.column(0);
                let c1 = self.column(1);
                let c2 = self.column(2);
                let o0 = verify_chain_batched(&c0, s);
                let o1 = verify_chain_batched(&c1, s);
                let o2 = verify_chain_batched(&c2, s);
                let tail = self.tail1(srs);
                proof {
                    if batch1_in_groups(self.batch_1@) {
                        assert(chain_in_groups(column(self.batch_1@, 0)));
                        assert(chain_in_groups(column(self.batch_1@, 1)));
                        assert(chain_in_groups(column(self.batch_1@, 2)));
                        assert((forall|j: int| 0 <= j < 3 ==> chain_holds_batched(#[trigger] column(self.batch_1@, j), svalues(s@)))
                            == (chain_holds_batched(column(self.batch_1@, 0), svalues(s@))
                            && chain_holds_batched(column(self.batch_1@, 1), svalues(s@))
                            && chain_holds_batched(column(self.batch_1@, 2), svalues(s@))));
                    }
                }
                o0 && o1 && o2 && tail
            },
            Phase::TWO => {
                let o = verify_chain_batched(&self.batch_2, s);
                let tail = self.tail2(srs);
                o && tail
            },
        };
        if ok {
            Ok(true)
        } else {
            Err(ProofError::BatchFailure)
        }
    }
}

} // verus!
