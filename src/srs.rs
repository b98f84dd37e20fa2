//! The structured reference string `(U, S)`: construction from a trapdoor,
//! the two kinds of update, specialisation to a QAP, and shape checks.
use vstd::prelude::*;
use crate::backend::{
    invertible,
    fadd, finv, fmul, fpow, g1_ok, g2_ok, in_g1, in_g2, log1, log2, order, scalar_value,
    RcBls12_381,
};
use crate::constraints::QAP;
use crate::polynomial::{poly_eval, Univariate};
use crate::prover::{lemma_mod_canonical, Witness};
use bls12_381::{G1Affine, G2Affine, Scalar};

verus! {

/// The secret scalars `(a, b, d, x)` from which an initial SRS is built.
/// It is neither `Clone` nor `Copy`: it is meant to be used once.
#[derive(Debug)]
pub struct Trapdoor(pub Scalar, pub Scalar, pub Scalar, pub Scalar);

impl Trapdoor {
    /// The trapdoor `(a, b, d, x)` from integers.
    pub fn from_u64(a: u64, b: u64, d: u64, x: u64) -> (r: Self)
        ensures
            scalar_value(r.0) == a as int % order(),
            scalar_value(r.1) == b as int % order(),
            scalar_value(r.2) == d as int % order(),
            scalar_value(r.3) == x as int % order(),
    {
        Trapdoor(
            RcBls12_381::scalar(a),
            RcBls12_381::scalar(b),
            RcBls12_381::scalar(d),
            RcBls12_381::scalar(x),
        )
    }

    /// The insecure trapdoor `(1, 1, 1, 1)`, for testing.
    pub fn from_units() -> (r: Self)
        ensures
            scalar_value(r.0) == 1 && scalar_value(r.1) == 1 && scalar_value(r.2) == 1
                && scalar_value(r.3) == 1,
    {
        Trapdoor(RcBls12_381::one(), RcBls12_381::one(), RcBls12_381::one(), RcBls12_381::one())
    }

    /// The insecure trapdoor `(1, 1, 1, 1)`, under its other name.
    pub fn create_from_units() -> (r: Self)
        ensures
            scalar_value(r.0) == 1 && scalar_value(r.1) == 1 && scalar_value(r.2) == 1
                && scalar_value(r.3) == 1,
    {
        Self::from_units()
    }

    /// A trapdoor drawn at random from the field's units.
    pub fn random() -> (r: Self)
        ensures
            0 < scalar_value(r.0) < order() && invertible(scalar_value(r.0)),
            0 < scalar_value(r.1) < order() && invertible(scalar_value(r.1)),
            0 < scalar_value(r.2) < order() && invertible(scalar_value(r.2)),
            0 < scalar_value(r.3) < order() && invertible(scalar_value(r.3)),
    {
        Trapdoor(RcBls12_381::runit(), RcBls12_381::runit(), RcBls12_381::runit(), RcBls12_381::runit())
    }

    /// The four scalars `(a, b, d, x)`.
    pub fn extract(&self) -> (r: (Scalar, Scalar, Scalar, Scalar))
        ensures
            r == (self.0, self.1, self.2, self.3),
    {
        (self.0, self.1, self.2, self.3)
    }
}

impl Drop for Trapdoor {
    /// Overwrites the secret scalars with zero.
    fn drop(&mut self)
        opens_invariants none
        no_unwind
    {
        self.0 = RcBls12_381::zero();
        self.1 = RcBls12_381::zero();
        self.2 = RcBls12_381::zero();
        self.3 = RcBls12_381::zero();
    }
}

/// The universal part: `U0[i] = (x^i G, x^i H)` for `i < 2n - 1` and
/// `U1[i] = (a x^i G, b x^i G, a x^i H, b x^i H)` for `i < n`.
pub type U = (Vec<(G1Affine, G2Affine)>, Vec<(G1Affine, G1Affine, G2Affine, G2Affine)>);

/// The QAP-specific part: `(d G, d H, S2, S3)`.
pub type S = (G1Affine, G2Affine, Vec<G1Affine>, Vec<G1Affine>);

/// A structured reference string.
#[derive(Debug, PartialEq)]
pub struct SRS {
    pub u: U,
    pub s: S,
}

/// Indicates that the SRS failed a shape or group-membership check.
#[derive(Debug, Clone, Copy, PartialEq, Eq, Structural)]
pub struct SRSError;

/// The value of the coefficient of `X^j` in `p` (zero beyond its length).
pub open spec fn coeff_value(p: Univariate, j: int) -> int {
    if 0 <= j < p.coeffs@.len() {
        scalar_value(p.coeffs@[j])
    } else {
        0
    }
}

/// `U0` is `((k x^i) G, (k' x^i) H)` for `i < len`, all points in their groups.
pub open spec fn u0_is(u0: Seq<(G1Affine, G2Affine)>, x: int, len: int) -> bool {
    &&& u0.len() == len
    &&& forall|i: int|
        0 <= i < len ==> g1_ok((#[trigger] u0[i]).0) && g2_ok(u0[i].1) && log1(u0[i].0) == fpow(
            x,
            i as nat,
        ) && log2(u0[i].1) == fpow(x, i as nat)
}

/// `U1` is `(a x^i G, b x^i G, a x^i H, b x^i H)` for `i < len`.
pub open spec fn u1_is(
    u1: Seq<(G1Affine, G1Affine, G2Affine, G2Affine)>,
    a: int,
    b: int,
    x: int,
    len: int,
) -> bool {
    &&& u1.len() == len
    &&& forall|i: int|
        0 <= i < len ==> {
            &&& g1_ok((#[trigger] u1[i]).0) && g1_ok(u1[i].1) && g2_ok(u1[i].2) && g2_ok(u1[i].3)
            &&& log1(u1[i].0) == fmul(a, fpow(x, i as nat))
            &&& log1(u1[i].1) == fmul(b, fpow(x, i as nat))
            &&& log2(u1[i].2) == fmul(a, fpow(x, i as nat))
            &&& log2(u1[i].3) == fmul(b, fpow(x, i as nat))
        }
}

/// The entry `S2[i - l - 1]` of the initial SRS, for `l < i <= m`.
pub open spec fn s2_initial(qap: QAP, a: int, b: int, d: int, x: int, i: int) -> int {
    fmul(
        fadd(
            fadd(fmul(b, poly_eval(qap.u@[i].view_coeffs(), x)), fmul(a, poly_eval(qap.v@[i].view_coeffs(), x))),
            poly_eval(qap.w@[i].view_coeffs(), x),
        ),
        finv(d),
    )
}

/// The entry `S3[i]` of the initial SRS.
pub open spec fn s3_initial(qap: QAP, d: int, x: int, i: int) -> int {
    fmul(fmul(fpow(x, i as nat), poly_eval(qap.t.view_coeffs(), x)), finv(d))
}

/// `S` is the initial one for the trapdoor `(a, b, d, x)`.
pub open spec fn s_is_initial(s: S, qap: QAP, a: int, b: int, d: int, x: int) -> bool {
    &&& fmul(d, finv(d)) == 1
    &&& g1_ok(s.0) && g2_ok(s.1)
    &&& log1(s.0) == d % order() && log2(s.1) == d % order()
    &&& s.2@.len() == qap.m - qap.l
    &&& s.3@.len() == qap.n - 1
    &&& forall|i: int|
        0 <= i < qap.m - qap.l ==> g1_ok(#[trigger] s.2@[i]) && log1(s.2@[i]) == s2_initial(
            qap,
            a,
            b,
            d,
            x,
            i + qap.l + 1,
        )
    &&& forall|i: int|
        0 <= i < qap.n - 1 ==> g1_ok(#[trigger] s.3@[i]) && log1(s.3@[i]) == s3_initial(
            qap,
            d,
            x,
            i,
        )
}

/// One term `u_i(j) U1[j].1 + v_i(j) U1[j].0 + w_i(j) U0[j].0` of `S2[i]`.
pub open spec fn s2_term(qap: QAP, u: U, i: int, j: int) -> int {
    fadd(
        fadd(
            fmul(coeff_value(qap.u@[i], j), log1(u.1@[j].1)),
            fmul(coeff_value(qap.v@[i], j), log1(u.1@[j].0)),
        ),
        fmul(coeff_value(qap.w@[i], j), log1(u.0@[j].0)),
    )
}

/// The first `k` terms of the specialised `S2[i]`, summed.
pub open spec fn s2_sum(qap: QAP, u: U, i: int, k: int) -> int
    decreases k,
{
    if k <= 0 {
        0
    } else {
        fadd(s2_sum(qap, u, i, k - 1), s2_term(qap, u, i, k - 1))
    }
}

/// The first `k` terms `t(j) U0[i + j].0` of the specialised `S3[i]`, summed.
pub open spec fn s3_sum(qap: QAP, u: U, i: int, k: int) -> int
    decreases k,
{
    if k <= 0 {
        0
    } else {
        fadd(s3_sum(qap, u, i, k - 1), fmul(coeff_value(qap.t, k - 1), log1(u.0@[i + k - 1].0)))
    }
}

/// All points of `U` lie in their groups, with the shape that `n` asks for.
pub open spec fn u_in_groups(u: U, n: int) -> bool {
    &&& u.0@.len() == 2 * n - 1
    &&& u.1@.len() == n
    &&& forall|i: int| 0 <= i < 2 * n - 1 ==> g1_ok((#[trigger] u.0@[i]).0) && g2_ok(u.0@[i].1)
    &&& forall|i: int|
        0 <= i < n ==> g1_ok((#[trigger] u.1@[i]).0) && g1_ok(u.1@[i].1) && g2_ok(u.1@[i].2)
            && g2_ok(u.1@[i].3)
}

/// All points of `S` lie in their groups, with the shape that the QAP asks for.
pub open spec fn s_in_groups(s: S, m: int, n: int, l: int) -> bool {
    &&& g1_ok(s.0) && g2_ok(s.1)
    &&& s.2@.len() == m - l
    &&& s.3@.len() == n - 1
    &&& forall|i: int| 0 <= i < m - l ==> g1_ok(#[trigger] s.2@[i])
    &&& forall|i: int| 0 <= i < n - 1 ==> g1_ok(#[trigger] s.3@[i])
}

/// `S` is the specialisation of `U` to the QAP: `(G, H, S2, S3)` with
/// `S2[i] = sum_j u_i(j) U1[j].1 + v_i(j) U1[j].0 + w_i(j) U0[j].0` and
/// `S3[i] = sum_j t(j) U0[i + j].0`.
pub open spec fn s_is_specialized(s: S, qap: QAP, u: U) -> bool {
    &&& g1_ok(s.0) && g2_ok(s.1) && log1(s.0) == 1 && log2(s.1) == 1
    &&& s.2@.len() == qap.m - qap.l
    &&& s.3@.len() == qap.n - 1
    &&& forall|i: int|
        0 <= i < qap.m - qap.l ==> g1_ok(#[trigger] s.2@[i]) && log1(s.2@[i]) == s2_sum(
            qap,
            u,
            i,
            qap.n as int,
        )
    &&& forall|i: int|
        0 <= i < qap.n - 1 ==> g1_ok(#[trigger] s.3@[i]) && log1(s.3@[i]) == s3_sum(
            qap,
            u,
            i,
            qap.n as int,
        )
}

impl SRS {
    /// The SRS for the insecure trapdoor `(1, 1, 1, 1)`, with that trapdoor.
    pub fn setup_with_unit_trapdoor(qap: &QAP) -> (r: (Self, Trapdoor))
        requires
            qap.wf(),
        ensures
            scalar_value(r.1.0) == 1 && scalar_value(r.1.1) == 1 && scalar_value(r.1.2) == 1
                && scalar_value(r.1.3) == 1,
            Self::is_initial(r.0, *qap, r.1),
    {
        Self::setup(qap, Some(Trapdoor::from_units()))
    }

    /// The SRS for a random trapdoor, with that trapdoor.
    pub fn setup_with_random_trapdoor(qap: &QAP) -> (r: (Self, Trapdoor))
        requires
            qap.wf(),
        ensures
            Self::is_initial(r.0, *qap, r.1),
    {
        Self::setup(qap, None)
    }

    /// The SRS for the given trapdoor, or for a random one when none is
    /// given; the trapdoor used is handed back.
    pub fn setup(qap: &QAP, trapdoor: Option<Trapdoor>) -> (r: (Self, Trapdoor))
        requires
            qap.wf(),
            trapdoor is Some ==> scalar_value(trapdoor->Some_0.2) != 0,
        ensures
            trapdoor is Some ==> r.1 == trapdoor->Some_0,
            Self::is_initial(r.0, *qap, r.1),
    {
        let trp = match trapdoor {
            Some(trp) => trp,
            None => Trapdoor::random(),
        };
        let srs = Self::create(&trp, qap);
        (srs, trp)
    }

    /// The SRS is the initial one for the trapdoor.
    pub open spec fn is_initial(srs: SRS, qap: QAP, trp: Trapdoor) -> bool {
        let (a, b, d, x) = (
            scalar_value(trp.0),
            scalar_value(trp.1),
            scalar_value(trp.2),
            scalar_value(trp.3),
        );
        &&& u0_is(srs.u.0@, x, 2 * qap.n - 1)
        &&& u1_is(srs.u.1@, a, b, x, qap.n as int)
        &&& s_is_initial(srs.s, qap, a, b, d, x)
    }

    /// The SRS of the trapdoor.
    pub fn create(trp: &Trapdoor, qap: &QAP) -> (r: Self)
        requires
            qap.wf(),
            scalar_value(trp.2) != 0,
        ensures
            Self::is_initial(r, *qap, *trp),
    {
        let u = Self::create_u(trp, qap);
        let s = Self::create_s(trp, qap);
        SRS { u, s }
    }

    fn create_u(trp: &Trapdoor, qap: &QAP) -> (r: U)
        requires
            qap.wf(),
        ensures
            u0_is(r.0@, scalar_value(trp.3), 2 * qap.n - 1),
            u1_is(r.1@, scalar_value(trp.0), scalar_value(trp.1), scalar_value(trp.3), qap.n as int),
    {
        let (a, b, _, x) = trp.extract();
        let (_, n, _) = qap.shape();
        let mut c1: Vec<(G1Affine, G2Affine)> = Vec::new();
        let mut i: usize = 0;
        while i < 2 * n - 1
            invariant
                n == qap.n,
                n >= 1,
                n <= isize::MAX,
                0 <= i <= 2 * n - 1,
                u0_is(c1@, scalar_value(x), i as int),
            decreases 2 * n - 1 - i,
        {
            let p = RcBls12_381::pow(&x, i);
            proof {
                lemma_mod_canonical(vstd::arithmetic::power::pow(scalar_value(x), i as nat));
            }
            c1.push((RcBls12_381::times_g(&p), RcBls12_381::times_h(&p)));
            i = i + 1;
        }
        let mut c2: Vec<(G1Affine, G1Affine, G2Affine, G2Affine)> = Vec::new();
        let mut i: usize = 0;
        while i < n
            invariant
                n == qap.n,
                0 <= i <= n,
                u1_is(c2@, scalar_value(a), scalar_value(b), scalar_value(x), i as int),
            decreases n - i,
        {
            let p = RcBls12_381::pow(&x, i);
            let ap = RcBls12_381::mul(&a, &p);
            let bp = RcBls12_381::mul(&b, &p);
            proof {
                lemma_mod_canonical(scalar_value(a) * scalar_value(p));
                lemma_mod_canonical(scalar_value(b) * scalar_value(p));
            }
            c2.push(
                (
                    RcBls12_381::times_g(&ap),
                    RcBls12_381::times_g(&bp),
                    RcBls12_381::times_h(&ap),
                    RcBls12_381::times_h(&bp),
                ),
            );
            i = i + 1;
        }
        (c1, c2)
    }

    fn create_s(trp: &Trapdoor, qap: &QAP) -> (r: S)
        requires
            qap.wf(),
            scalar_value(trp.2) != 0,
        ensures
            s_is_initial(r, *qap, scalar_value(trp.0), scalar_value(trp.1), scalar_value(trp.2), scalar_value(trp.3)),
    {
        let (a, b, d, x) = trp.extract();
        let (m, n, l) = qap.shape();
        let (u, v, w, t) = qap.collections();
        let dinv = RcBls12_381::inv(&d);
        let c1 = RcBls12_381::times_g(&d);
        let c2 = RcBls12_381::times_h(&d);
        let mut c3: Vec<G1Affine> = Vec::new();
        let mut i: usize = l + 1;
        while i < m + 1
            invariant
                qap.wf(),
                m == qap.m && n == qap.n && l == qap.l,
                *u == qap.u && *v == qap.v && *w == qap.w,
                l + 1 <= i <= m + 1,
                c3@.len() == i - l - 1,
                scalar_value(dinv) == finv(scalar_value(d)),
                forall|k: int|
                    0 <= k < i - l - 1 ==> g1_ok(#[trigger] c3@[k]) && log1(c3@[k]) == s2_initial(
                        *qap,
                        scalar_value(a),
                        scalar_value(b),
                        scalar_value(d),
                        scalar_value(x),
                        k + l + 1,
                    ),
            decreases m + 1 - i,
        {
            let ux = Self::eval_at(&u[i], &x);
            let vx = Self::eval_at(&v[i], &x);
            let wx = Self::eval_at(&w[i], &x);
            let bu = RcBls12_381::mul(&b, &ux);
            let av = RcBls12_381::mul(&a, &vx);
            let sum1 = RcBls12_381::add(&bu, &av);
            let sum2 = RcBls12_381::add(&sum1, &wx);
            let k = RcBls12_381::mul(&sum2, &dinv);
            proof {
                lemma_mod_canonical(scalar_value(sum2) * scalar_value(dinv));
            }
            c3.push(RcBls12_381::times_g(&k));
            i = i + 1;
        }
        let tx = Self::eval_at(t, &x);
        let mut c4: Vec<G1Affine> = Vec::new();
        let mut i: usize = 0;
        while i < n - 1
            invariant
                qap.wf(),
                n == qap.n,
                *t == qap.t,
                0 <= i <= n - 1,
                c4@.len() == i,
                scalar_value(dinv) == finv(scalar_value(d)),
                scalar_value(tx) == poly_eval(qap.t.view_coeffs(), scalar_value(x)),
                forall|k: int|
                    0 <= k < i ==> g1_ok(#[trigger] c4@[k]) && log1(c4@[k]) == s3_initial(
                        *qap,
                        scalar_value(d),
                        scalar_value(x),
                        k,
                    ),
            decreases n - 1 - i,
        {
            let p = RcBls12_381::pow(&x, i);
            let pt = RcBls12_381::mul(&p, &tx);
            let k = RcBls12_381::mul(&pt, &dinv);
            proof {
                lemma_mod_canonical(scalar_value(pt) * scalar_value(dinv));
            }
            c4.push(RcBls12_381::times_g(&k));
            i = i + 1;
        }
        (c1, c2, c3, c4)
    }

    /// The value of a polynomial of non-negative degree at `x`.
    fn eval_at(p: &Univariate, x: &Scalar) -> (r: Scalar)
        requires
            p.degree >= 0,
        ensures
            scalar_value(r) == poly_eval(p.view_coeffs(), scalar_value(*x)),
    {
        match p.evaluate(x) {
            Ok(value) => value,
            Err(_) => RcBls12_381::zero(),
        }
    }
}

/// `U` after a phase-one update by `(a, b, x)`: every entry of the old `U`
/// that lies in its group is multiplied by the matching power of `x`, times
/// `a` or `b` in `U1`.
pub open spec fn u_rescaled(new: U, old: U, a: int, b: int, x: int, n: int) -> bool {
    &&& new.0@.len() == 2 * n - 1
    &&& new.1@.len() == n
    &&& forall|i: int|
        0 <= i < 2 * n - 1 ==> {
            &&& (in_g1(old.0@[i].0) ==> g1_ok((#[trigger] new.0@[i]).0) && log1(new.0@[i].0)
                == fmul(fpow(x, i as nat), log1(old.0@[i].0)))
            &&& (in_g2(old.0@[i].1) ==> g2_ok(new.0@[i].1) && log2(new.0@[i].1) == fmul(
                fpow(x, i as nat),
                log2(old.0@[i].1),
            ))
        }
    &&& forall|i: int|
        0 <= i < n ==> {
            &&& (in_g1(old.1@[i].0) ==> g1_ok((#[trigger] new.1@[i]).0) && log1(new.1@[i].0)
                == fmul(fmul(a, fpow(x, i as nat)), log1(old.1@[i].0)))
            &&& (in_g1(old.1@[i].1) ==> g1_ok(new.1@[i].1) && log1(new.1@[i].1) == fmul(
                fmul(b, fpow(x, i as nat)),
                log1(old.1@[i].1),
            ))
            &&& (in_g2(old.1@[i].2) ==> g2_ok(new.1@[i].2) && log2(new.1@[i].2) == fmul(
                fmul(a, fpow(x, i as nat)),
                log2(old.1@[i].2),
            ))
            &&& (in_g2(old.1@[i].3) ==> g2_ok(new.1@[i].3) && log2(new.1@[i].3) == fmul(
                fmul(b, fpow(x, i as nat)),
                log2(old.1@[i].3),
            ))
        }
}

/// `S` after a phase-two update by `d`: `d S.0`, `d S.1`, and `d^-1` times
/// every entry of `S2` and `S3`, for the entries in their groups.
pub open spec fn s_rescaled(new: S, old: S, d: int) -> bool {
    &&& new.2@.len() == old.2@.len()
    &&& new.3@.len() == old.3@.len()
    &&& in_g1(old.0) ==> g1_ok(new.0) && log1(new.0) == fmul(d, log1(old.0))
    &&& in_g2(old.1) ==> g2_ok(new.1) && log2(new.1) == fmul(d, log2(old.1))
    &&& forall|i: int|
        0 <= i < old.2@.len() ==> (in_g1(old.2@[i]) ==> g1_ok(#[trigger] new.2@[i]) && log1(
            new.2@[i],
        ) == fmul(finv(d), log1(old.2@[i])))
    &&& forall|i: int|
        0 <= i < old.3@.len() ==> (in_g1(old.3@[i]) ==> g1_ok(#[trigger] new.3@[i]) && log1(
            new.3@[i],
        ) == fmul(finv(d), log1(old.3@[i])))
}

/// `after` is `before` updated with the witness: the shape is kept; in
/// phase one `U` is rescaled and `S` specialised anew, in phase two `U` is
/// kept and `S` rescaled.
pub open spec fn srs_updated(before: SRS, after: SRS, qap: QAP, w: Witness) -> bool {
    &&& has_shape(after, qap)
    &&& match w {
        Witness::ONE(a, b, x) => u_rescaled(
            after.u,
            before.u,
            scalar_value(a),
            scalar_value(b),
            scalar_value(x),
            qap.n as int,
        ) && (u_in_groups(after.u, qap.n as int) ==> s_is_specialized(after.s, qap, after.u)),
        Witness::TWO(d) => after.u == before.u && s_rescaled(after.s, before.s, scalar_value(d))
            && fmul(scalar_value(d), finv(scalar_value(d))) == 1,
    }
}

/// The SRS has the lengths that the QAP asks for.
pub open spec fn has_shape(srs: SRS, qap: QAP) -> bool {
    &&& srs.u.0@.len() == 2 * qap.n - 1
    &&& srs.u.1@.len() == qap.n
    &&& srs.s.2@.len() == qap.m - qap.l
    &&& srs.s.3@.len() == qap.n - 1
}

/// Every point of the vector lies in G1.
pub fn all_in_g1(v: &Vec<G1Affine>) -> (r: bool)
    ensures
        r == forall|i: int| 0 <= i < v@.len() ==> g1_ok(#[trigger] v@[i]),
{
    let mut ok = true;
    let mut i: usize = 0;
    while i < v.len()
        invariant
            0 <= i <= v@.len(),
            ok == forall|k: int| 0 <= k < i ==> g1_ok(#[trigger] v@[k]),
        decreases v@.len() - i,
    {
        let c = RcBls12_381::contained_in_G1(&v[i]);
        ok = ok && c;
        i = i + 1;
    }
    ok
}

impl SRS {
    /// Rewrites the SRS with a contributor's witness. Phase one multiplies
    /// `U` by the powers of `x'` (and `a'`, `b'`) and specialises `S` anew;
    /// phase two multiplies `S.0`, `S.1` by `d'` and `S2`, `S3` by `d'^-1`.
    pub fn update(&mut self, qap: &QAP, w: Witness)
        requires
            qap.wf(),
            has_shape(*old(self), *qap),
            w is TWO ==> scalar_value(w->TWO_0) != 0,
        ensures
            srs_updated(*old(self), *final(self), *qap, w),
    {
        let (m, n, l) = qap.shape();
        match w {
            Witness::ONE(a, b, x) => {
                let u_new = Self::rescale_u(&self.u, &a, &b, &x, n);
                let s_new = Self::specialize(qap, &u_new);
                self.u = u_new;
                self.s = s_new;
            },
            Witness::TWO(d) => {
                let dinv = RcBls12_381::inv(&d);
                let c1 = RcBls12_381::smul1(&d, &self.s.0);
                let c2 = RcBls12_381::smul2(&d, &self.s.1);
                let c3 = Self::rescale_g1(&self.s.2, &dinv);
                let c4 = Self::rescale_g1(&self.s.3, &dinv);
                self.s = (c1, c2, c3, c4);
            },
        }
    }

    /// Every entry multiplied by `k`.
    fn rescale_g1(v: &Vec<G1Affine>, k: &Scalar) -> (r: Vec<G1Affine>)
        ensures
            r@.len() == v@.len(),
            forall|i: int|
                0 <= i < v@.len() ==> (in_g1(v@[i]) ==> g1_ok(#[trigger] r@[i]) && log1(r@[i])
                    == fmul(scalar_value(*k), log1(v@[i]))),
    {
        let mut r: Vec<G1Affine> = Vec::new();
        let mut i: usize = 0;
        while i < v.len()
            invariant
                0 <= i <= v@.len(),
                r@.len() == i,
                forall|j: int|
                    0 <= j < i ==> (in_g1(v@[j]) ==> g1_ok(#[trigger] r@[j]) && log1(r@[j])
                        == fmul(scalar_value(*k), log1(v@[j]))),
            decreases v@.len() - i,
        {
            r.push(RcBls12_381::smul1(k, &v[i]));
            i = i + 1;
        }
        r
    }

    /// `U` after a phase-one update by `(a, b, x)`.
    fn rescale_u(u: &U, a: &Scalar, b: &Scalar, x: &Scalar, n: usize) -> (r: U)
        requires
            n >= 1,
            n <= isize::MAX,
            u.0@.len() == 2 * n - 1,
            u.1@.len() == n,
        ensures
            u_rescaled(r, *u, scalar_value(*a), scalar_value(*b), scalar_value(*x), n as int),
    {
        let mut c1: Vec<(G1Affine, G2Affine)> = Vec::new();
        let mut i: usize = 0;
        while i < 2 * n - 1
            invariant
                n >= 1,
                n <= isize::MAX,
                u.0@.len() == 2 * n - 1,
                0 <= i <= 2 * n - 1,
                c1@.len() == i,
                forall|k: int|
                    0 <= k < i ==> {
                        &&& (in_g1(u.0@[k].0) ==> g1_ok((#[trigger] c1@[k]).0) && log1(c1@[k].0)
                            == fmul(fpow(scalar_value(*x), k as nat), log1(u.0@[k].0)))
                        &&& (in_g2(u.0@[k].1) ==> g2_ok(c1@[k].1) && log2(c1@[k].1) == fmul(
                            fpow(scalar_value(*x), k as nat),
                            log2(u.0@[k].1),
                        ))
                    },
            decreases 2 * n - 1 - i,
        {
            let p = RcBls12_381::pow(x, i);
            let entry = u.0[i];
            c1.push((RcBls12_381::smul1(&p, &entry.0), RcBls12_381::smul2(&p, &entry.1)));
            i = i + 1;
        }
        let mut c2: Vec<(G1Affine, G1Affine, G2Affine, G2Affine)> = Vec::new();
        let mut i: usize = 0;
        while i < n
            invariant
                u.1@.len() == n,
                0 <= i <= n,
                c2@.len() == i,
                forall|k: int|
                    0 <= k < i ==> {
                        &&& (in_g1(u.1@[k].0) ==> g1_ok((#[trigger] c2@[k]).0) && log1(c2@[k].0)
                            == fmul(fmul(scalar_value(*a), fpow(scalar_value(*x), k as nat)), log1(u.1@[k].0)))
                        &&& (in_g1(u.1@[k].1) ==> g1_ok(c2@[k].1) && log1(c2@[k].1) == fmul(
                            fmul(scalar_value(*b), fpow(scalar_value(*x), k as nat)),
                            log1(u.1@[k].1),
                        ))
                        &&& (in_g2(u.1@[k].2) ==> g2_ok(c2@[k].2) && log2(c2@[k].2) == fmul(
                            fmul(scalar_value(*a), fpow(scalar_value(*x), k as nat)),
                            log2(u.1@[k].2),
                        ))
                        &&& (in_g2(u.1@[k].3) ==> g2_ok(c2@[k].3) && log2(c2@[k].3) == fmul(
                            fmul(scalar_value(*b), fpow(scalar_value(*x), k as nat)),
                            log2(u.1@[k].3),
                        ))
                    },
            decreases n - i,
        {
            let p = RcBls12_381::pow(x, i);
            let ap = RcBls12_381::mul(a, &p);
            let bp = RcBls12_381::mul(b, &p);
            let entry = u.1[i];
            c2.push(
                (
                    RcBls12_381::smul1(&ap, &entry.0),
                    RcBls12_381::smul1(&bp, &entry.1),
                    RcBls12_381::smul2(&ap, &entry.2),
                    RcBls12_381::smul2(&bp, &entry.3),
                ),
            );
            i = i + 1;
        }
        (c1, c2)
    }

    /// The specialisation of `U` to the QAP: `(G, H, S2, S3)` with
    /// `S2[i] = sum_j u_i(j) U1[j].1 + v_i(j) U1[j].0 + w_i(j) U0[j].0` for
    /// `i < m - l` and `S3[i] = sum_j t(j) U0[i + j].0` for `i < n - 1`.
    pub fn specialize(qap: &QAP, u: &U) -> (r: S)
        requires
            qap.wf(),
            u.0@.len() == 2 * qap.n - 1,
            u.1@.len() == qap.n,
        ensures
            r.2@.len() == qap.m - qap.l,
            r.3@.len() == qap.n - 1,
            u_in_groups(*u, qap.n as int) ==> s_is_specialized(r, *qap, *u),
    {
        let (m, n, l) = qap.shape();
        let c1 = RcBls12_381::genG1();
        let c2 = RcBls12_381::genG2();
        let mut c3: Vec<G1Affine> = Vec::new();
        let mut i: usize = 0;
        while i < m - l
            invariant
                qap.wf(),
                m == qap.m && n == qap.n && l == qap.l,
                u.0@.len() == 2 * n - 1,
                u.1@.len() == n,
                0 <= i <= m - l,
                c3@.len() == i,
                u_in_groups(*u, n as int) ==> forall|k: int|
                    0 <= k < i ==> g1_ok(#[trigger] c3@[k]) && log1(c3@[k]) == s2_sum(
                        *qap,
                        *u,
                        k,
                        n as int,
                    ),
            decreases m - l - i,
        {
            c3.push(Self::s2_entry(qap, u, i));
            i = i + 1;
        }
        let mut c4: Vec<G1Affine> = Vec::new();
        let mut i: usize = 0;
        while i < n - 1
            invariant
                qap.wf(),
                n == qap.n,
                u.0@.len() == 2 * n - 1,
                u.1@.len() == n,
                0 <= i <= n - 1,
                c4@.len() == i,
                u_in_groups(*u, n as int) ==> forall|k: int|
                    0 <= k < i ==> g1_ok(#[trigger] c4@[k]) && log1(c4@[k]) == s3_sum(
                        *qap,
                        *u,
                        k,
                        n as int,
                    ),
            decreases n - 1 - i,
        {
            c4.push(Self::s3_entry(qap, u, i));
            i = i + 1;
        }
        (c1, c2, c3, c4)
    }

    /// `sum_j u_i(j) U1[j].1 + v_i(j) U1[j].0 + w_i(j) U0[j].0` over `j < n`.
    pub fn s2_entry(qap: &QAP, u: &U, i: usize) -> (r: G1Affine)
        requires
            qap.wf(),
            i < qap.m - qap.l,
            u.0@.len() == 2 * qap.n - 1,
            u.1@.len() == qap.n,
        ensures
            u_in_groups(*u, qap.n as int) ==> g1_ok(r) && log1(r) == s2_sum(
                *qap,
                *u,
                i as int,
                qap.n as int,
            ),
    {
        let n = qap.n;
        let mut acc = RcBls12_381::zeroG1();
        let mut j: usize = 0;
        while j < n
            invariant
                qap.wf(),
                n == qap.n,
                i < qap.m - qap.l,
                u.0@.len() == 2 * n - 1,
                u.1@.len() == n,
                0 <= j <= n,
                u_in_groups(*u, n as int) ==> g1_ok(acc) && log1(acc) == s2_sum(
                    *qap,
                    *u,
                    i as int,
                    j as int,
                ),
            decreases n - j,
        {
            let uc = qap.u[i].coeff(j);
            let vc = qap.v[i].coeff(j);
            let wc = qap.w[i].coeff(j);
            let e1 = u.1[j];
            let e0 = u.0[j];
            let t1 = RcBls12_381::smul1(&uc, &e1.1);
            let t2 = RcBls12_381::smul1(&vc, &e1.0);
            let t3 = RcBls12_381::smul1(&wc, &e0.0);
            let t12 = RcBls12_381::add1_pair(&t1, &t2);
            let term = RcBls12_381::add1_pair(&t12, &t3);
            acc = RcBls12_381::add1_pair(&acc, &term);
            j = j + 1;
        }
        acc
    }

    /// `sum_j t(j) U0[i + j].0` over `j < n`.
    pub fn s3_entry(qap: &QAP, u: &U, i: usize) -> (r: G1Affine)
        requires
            qap.wf(),
            i <= qap.n - 1,
            u.0@.len() == 2 * qap.n - 1,
            u.1@.len() == qap.n,
        ensures
            u_in_groups(*u, qap.n as int) ==> g1_ok(r) && log1(r) == s3_sum(
                *qap,
                *u,
                i as int,
                qap.n as int,
            ),
    {
        let n = qap.n;
        let mut acc = RcBls12_381::zeroG1();
        let mut j: usize = 0;
        while j < n
            invariant
                qap.wf(),
                n == qap.n,
                i <= n - 1,
                u.0@.len() == 2 * n - 1,
                u.1@.len() == n,
                0 <= j <= n,
                u_in_groups(*u, n as int) ==> g1_ok(acc) && log1(acc) == s3_sum(
                    *qap,
                    *u,
                    i as int,
                    j as int,
                ),
            decreases n - j,
        {
            let tc = qap.t.coeff(j);
            let e0 = u.0[i + j];
            let term = RcBls12_381::smul1(&tc, &e0.0);
            acc = RcBls12_381::add1_pair(&acc, &term);
            j = j + 1;
        }
        acc
    }

    /// Whether `U` has `2n - 1` and `n` entries, all points in their groups.
    pub fn check_u(&self, qap: &QAP) -> (r: Result<bool, SRSError>)
        ensures
            r is Ok ==> r->Ok_0,
            r is Ok <==> u_in_groups(self.u, qap.n as int),
    {
        let n = qap.n;
        let u = &self.u;
        if n == 0 || u.1.len() != n || u.0.len() % 2 == 0 || u.0.len() / 2 != n - 1 {
            return Err(SRSError);
        }
        let mut ok = true;
        let mut i: usize = 0;
        while i < u.0.len()
            invariant
                0 <= i <= u.0@.len(),
                ok == forall|k: int|
                    0 <= k < i ==> g1_ok((#[trigger] u.0@[k]).0) && g2_ok(u.0@[k].1),
            decreases u.0@.len() - i,
        {
            let e = u.0[i];
            let c1 = RcBls12_381::contained_in_G1(&e.0);
            let c2 = RcBls12_381::contained_in_G2(&e.1);
            ok = ok && c1 && c2;
            i = i + 1;
        }
        let mut i: usize = 0;
        while i < u.1.len()
            invariant
                0 <= i <= u.1@.len(),
                ok == ((forall|k: int|
                    0 <= k < u.0@.len() ==> g1_ok((#[trigger] u.0@[k]).0) && g2_ok(u.0@[k].1))
                    && forall|k: int|
                    0 <= k < i ==> g1_ok((#[trigger] u.1@[k]).0) && g1_ok(u.1@[k].1) && g2_ok(
                        u.1@[k].2,
                    ) && g2_ok(u.1@[k].3)),
            decreases u.1@.len() - i,
        {
            let e = u.1[i];
            let c1 = RcBls12_381::contained_in_G1(&e.0);
            let c2 = RcBls12_381::contained_in_G1(&e.1);
            let c3 = RcBls12_381::contained_in_G2(&e.2);
            let c4 = RcBls12_381::contained_in_G2(&e.3);
            ok = ok && c1 && c2 && c3 && c4;
            i = i + 1;
        }
        if ok {
            Ok(true)
        } else {
            Err(SRSError)
        }
    }

    /// Whether `S` has `m - l` and `n - 1` entries in `S2`, `S3`, all points
    /// in their groups.
    pub fn check_s(&self, qap: &QAP) -> (r: Result<bool, SRSError>)
        ensures
            r is Ok ==> r->Ok_0,
            r is Ok <==> s_in_groups(self.s, qap.m as int, qap.n as int, qap.l as int),
    {
        let (m, n, l) = qap.shape();
        let s = &self.s;
        let c1 = RcBls12_381::contained_in_G1(&s.0);
        let c2 = RcBls12_381::contained_in_G2(&s.1);
        let lens = l <= m && n >= 1 && s.2.len() == m - l && s.3.len() == n - 1;
        let c3 = all_in_g1(&s.2);
        let c4 = all_in_g1(&s.3);
        if c1 && c2 && lens && c3 && c4 {
            Ok(true)
        } else {
            Err(SRSError)
        }
    }
}

} // verus!
