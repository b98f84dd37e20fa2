//! Curve facade: scalars, the two source groups, the target group, and the
//! random oracle, over the `bls12_381` crate.
//!
//! A point of one of the prime-order groups is described by its discrete
//! logarithm with respect to the group's fixed generator (`log1`, `log2`,
//! `log_t`); a scalar by the integer in `[0, q)` that it stands for.
use vstd::prelude::*;
use vstd::arithmetic::power::pow;
use subtle::ConstantTimeEq;
use sha2::Digest;
use bls12_381::{G1Affine, G2Affine, Gt, Scalar};

verus! {

#[verifier::external_type_specification]
#[verifier::external_body]
pub struct ExScalar(bls12_381::Scalar);

#[verifier::external_type_specification]
#[verifier::external_body]
pub struct ExG1Affine(bls12_381::G1Affine);

#[verifier::external_type_specification]
#[verifier::external_body]
pub struct ExG2Affine(bls12_381::G2Affine);

#[verifier::external_type_specification]
#[verifier::external_body]
pub struct ExGt(bls12_381::Gt);

/// The prime order `q` of the scalar field and of the groups G1, G2 and Gt.
pub open spec fn order() -> int {
    0xffffffff00000001 + 0x53bda402fffe5bfe * limb_base() + 0x3339d80809a1d805 * limb_base()
        * limb_base() + 0x73eda753299d7d48 * limb_base() * limb_base() * limb_base()
}

/// `2^64`, the base of the little-endian limbs that write `order()`.
pub open spec fn limb_base() -> int {
    0x1_0000_0000_0000_0000
}

/// Product in the scalar field.
pub open spec fn fmul(a: int, b: int) -> int {
    (a * b) % order()
}

/// Sum in the scalar field.
pub open spec fn fadd(a: int, b: int) -> int {
    (a + b) % order()
}

/// `b^e` in the scalar field.
pub open spec fn fpow(b: int, e: nat) -> int {
    pow(b, e) % order()
}

/// The integer that a byte string stands for, read little-endian.
pub open spec fn le_value(b: Seq<u8>) -> int
    decreases b.len(),
{
    if b.len() == 0 {
        0
    } else {
        b[0] as int + 256 * le_value(b.drop_first())
    }
}

/// The canonical integer in `[0, q)` that a scalar stands for.
pub uninterp spec fn scalar_value(s: Scalar) -> int;

/// The point satisfies the curve equation of G1 (or is the point at infinity).
pub uninterp spec fn on_curve1(p: G1Affine) -> bool;

/// The point has no component outside the `q`-order subgroup.
pub uninterp spec fn torsion_free1(p: G1Affine) -> bool;

/// The discrete logarithm of a point of G1 with respect to the generator.
pub uninterp spec fn log1(p: G1Affine) -> int;

/// The point satisfies the curve equation of G2 (or is the point at infinity).
pub uninterp spec fn on_curve2(p: G2Affine) -> bool;

/// The point has no component outside the `q`-order subgroup.
pub uninterp spec fn torsion_free2(p: G2Affine) -> bool;

/// The discrete logarithm of a point of G2 with respect to the generator.
pub uninterp spec fn log2(p: G2Affine) -> int;

/// The discrete logarithm of an element of Gt with respect to `e(G, H)`.
pub uninterp spec fn log_t(e: Gt) -> int;

/// The 96-byte uncompressed encoding of a point of G1.
pub uninterp spec fn g1_encoding(p: G1Affine) -> Seq<u8>;

/// The 96-byte compressed encoding of a point of G2.
pub uninterp spec fn g2_encoding(p: G2Affine) -> Seq<u8>;

/// The SHA-512 digest of a byte string.
pub uninterp spec fn sha512_of(b: Seq<u8>) -> Seq<u8>;

/// The point lies in the prime-order group G1.
pub open spec fn in_g1(p: G1Affine) -> bool {
    on_curve1(p) && torsion_free1(p)
}

/// The point lies in the prime-order group G2.
pub open spec fn in_g2(p: G2Affine) -> bool {
    on_curve2(p) && torsion_free2(p)
}

/// A point of G1 with its logarithm in canonical range.
pub open spec fn g1_ok(p: G1Affine) -> bool {
    in_g1(p) && 0 <= log1(p) < order()
}

/// A point of G2 with its logarithm in canonical range.
pub open spec fn g2_ok(p: G2Affine) -> bool {
    in_g2(p) && 0 <= log2(p) < order()
}

/// The logarithms of a sequence of points of G1, summed in the field.
pub open spec fn sum_log1(s: Seq<G1Affine>) -> int
    decreases s.len(),
{
    if s.len() == 0 {
        0
    } else {
        fadd(sum_log1(s.drop_last()), log1(s.last()))
    }
}

/// The logarithms of a sequence of points of G2, summed in the field.
pub open spec fn sum_log2(s: Seq<G2Affine>) -> int
    decreases s.len(),
{
    if s.len() == 0 {
        0
    } else {
        fadd(sum_log2(s.drop_last()), log2(s.last()))
    }
}

/// Relies on `From<u64> for bls12_381::Scalar`: the scalar `n mod q`.
#[verifier::external_body]
fn scalar_from_u64(n: u64) -> (r: Scalar)
    ensures
        scalar_value(r) == n as int % order(),
    opens_invariants none
    no_unwind
{
    bls12_381::Scalar::from(n)
}

/// Relies on `bls12_381::Scalar`'s `Add`: the sum modulo `q`.
#[verifier::external_body]
fn scalar_add(a: &Scalar, b: &Scalar) -> (r: Scalar)
    ensures
        scalar_value(r) == fadd(scalar_value(*a), scalar_value(*b)),
{
    a + b
}

/// Relies on `bls12_381::Scalar`'s `Mul`: the product modulo `q`.
#[verifier::external_body]
fn scalar_mul(a: &Scalar, b: &Scalar) -> (r: Scalar)
    ensures
        scalar_value(r) == fmul(scalar_value(*a), scalar_value(*b)),
{
    a * b
}

/// The multiplicative inverse in the scalar field, `d^(q-2)`.
pub open spec fn finv(d: int) -> int {
    fpow(d, (order() - 2) as nat)
}

/// The scalar has an inverse in the field.
pub open spec fn invertible(v: int) -> bool {
    exists|e: int| fmul(v, e) == 1
}

/// Relies on `bls12_381::Scalar::invert`, which has a result for every
/// non-zero scalar: the multiplicative inverse, computed as `a^(q-2)`.
#[verifier::external_body]
fn scalar_invert(a: &Scalar) -> (r: Scalar)
    requires
        scalar_value(*a) != 0,
    ensures
        scalar_value(r) == finv(scalar_value(*a)),
        fmul(scalar_value(*a), scalar_value(r)) == 1,
{
    a.invert().unwrap()
}

/// Relies on `bls12_381::Scalar::pow` with a little-endian exponent whose
/// upper limbs are zero: `base^exp mod q`.
#[verifier::external_body]
fn scalar_pow(base: &Scalar, exp: u64) -> (r: Scalar)
    ensures
        scalar_value(r) == fpow(scalar_value(*base), exp as nat),
{
    base.pow(&[exp, 0, 0, 0])
}

/// Relies on `bls12_381::Scalar::from_bytes_wide`: the 512-bit
/// little-endian integer reduced modulo `q`.
#[verifier::external_body]
fn scalar_from_bytes_wide(b: &Vec<u8>) -> (r: Scalar)
    requires
        b@.len() == 64,
    ensures
        scalar_value(r) == le_value(b@) % order(),
{
    let wide: [u8; 64] = b.as_slice().try_into().unwrap();
    bls12_381::Scalar::from_bytes_wide(&wide)
}

/// Relies on `ConstantTimeEq for bls12_381::Scalar`: equality of the values.
#[verifier::external_body]
fn scalar_ct_eq(a: &Scalar, b: &Scalar) -> (r: bool)
    ensures
        r == (scalar_value(*a) == scalar_value(*b)),
{
    bool::from(a.ct_eq(b))
}

/// Relies on `rand::random`: 64 bytes from the thread-local generator.
#[verifier::external_body]
fn random_wide_bytes() -> (r: Vec<u8>)
    ensures
        r@.len() == 64,
{
    let (lo, hi): ([u8; 32], [u8; 32]) = rand::random();
    let mut bytes = lo.to_vec();
    bytes.extend_from_slice(&hi);
    bytes
}

/// Relies on `sha2::Sha512::digest`: the 64-byte digest.
#[verifier::external_body]
fn sha512(b: &Vec<u8>) -> (r: Vec<u8>)
    ensures
        r@ == sha512_of(b@),
        r@.len() == 64,
{
    sha2::Sha512::digest(b.as_slice()).to_vec()
}

/// Relies on `bls12_381::G1Affine::generator`: the fixed generator `G`.
#[verifier::external_body]
fn g1_generator() -> (r: G1Affine)
    ensures
        g1_ok(r),
        log1(r) == 1,
{
    bls12_381::G1Affine::generator()
}

/// Relies on `bls12_381::G1Affine::identity`: the point at infinity.
#[verifier::external_body]
fn g1_identity() -> (r: G1Affine)
    ensures
        g1_ok(r),
        log1(r) == 0,
{
    bls12_381::G1Affine::identity()
}

/// Relies on the addition of `bls12_381::G1Projective` with a `G1Affine`,
/// converted back to affine form: the group law of G1.
#[verifier::external_body]
fn g1_add(a: &G1Affine, b: &G1Affine) -> (r: G1Affine)
    ensures
        in_g1(*a) && in_g1(*b) ==> g1_ok(r) && log1(r) == fadd(log1(*a), log1(*b)),
{
    bls12_381::G1Affine::from(&bls12_381::G1Projective::from(a) + b)
}

/// Relies on `Mul<&Scalar> for &bls12_381::G1Affine`, converted back to
/// affine form: scalar multiplication in G1.
#[verifier::external_body]
fn g1_mul(p: &G1Affine, k: &Scalar) -> (r: G1Affine)
    ensures
        in_g1(*p) ==> g1_ok(r) && log1(r) == fmul(scalar_value(*k), log1(*p)),
{
    bls12_381::G1Affine::from(p * k)
}

/// Relies on `bls12_381::G1Affine::is_on_curve`.
#[verifier::external_body]
fn g1_is_on_curve(p: &G1Affine) -> (r: bool)
    ensures
        r == on_curve1(*p),
{
    bool::from(p.is_on_curve())
}

/// Relies on `bls12_381::G1Affine::is_torsion_free`: a point on the curve
/// and free of torsion is `k * G` for exactly one `k < q`.
#[verifier::external_body]
fn g1_is_torsion_free(p: &G1Affine) -> (r: bool)
    ensures
        r == torsion_free1(*p),
        r && on_curve1(*p) ==> 0 <= log1(*p) < order(),
{
    bool::from(p.is_torsion_free())
}

/// Relies on `ConstantTimeEq for bls12_381::G1Affine`: two points of G1 are
/// equal exactly when their logarithms are.
#[verifier::external_body]
fn g1_ct_eq(a: &G1Affine, b: &G1Affine) -> (r: bool)
    ensures
        g1_ok(*a) && g1_ok(*b) ==> r == (log1(*a) == log1(*b)),
{
    bool::from(a.ct_eq(b))
}

/// Relies on `bls12_381::G1Affine::to_uncompressed`.
#[verifier::external_body]
fn g1_to_uncompressed(p: &G1Affine) -> (r: [u8; 96])
    ensures
        r@ == g1_encoding(*p),
{
    p.to_uncompressed()
}

/// Relies on `bls12_381::G2Affine::generator`: the fixed generator `H`.
#[verifier::external_body]
fn g2_generator() -> (r: G2Affine)
    ensures
        g2_ok(r),
        log2(r) == 1,
{
    bls12_381::G2Affine::generator()
}

/// Relies on `bls12_381::G2Affine::identity`: the point at infinity.
#[verifier::external_body]
fn g2_identity() -> (r: G2Affine)
    ensures
        g2_ok(r),
        log2(r) == 0,
{
    bls12_381::G2Affine::identity()
}

/// Relies on the addition of `bls12_381::G2Projective` with a `G2Affine`,
/// converted back to affine form: the group law of G2.
#[verifier::external_body]
fn g2_add(a: &G2Affine, b: &G2Affine) -> (r: G2Affine)
    ensures
        in_g2(*a) && in_g2(*b) ==> g2_ok(r) && log2(r) == fadd(log2(*a), log2(*b)),
{
    bls12_381::G2Affine::from(&bls12_381::G2Projective::from(a) + b)
}

/// Relies on `Mul<&Scalar> for &bls12_381::G2Affine`, converted back to
/// affine form: scalar multiplication in G2.
#[verifier::external_body]
fn g2_mul(p: &G2Affine, k: &Scalar) -> (r: G2Affine)
    ensures
        in_g2(*p) ==> g2_ok(r) && log2(r) == fmul(scalar_value(*k), log2(*p)),
{
    bls12_381::G2Affine::from(p * k)
}

/// Relies on `bls12_381::G2Affine::is_on_curve`.
#[verifier::external_body]
fn g2_is_on_curve(p: &G2Affine) -> (r: bool)
    ensures
        r == on_curve2(*p),
{
    bool::from(p.is_on_curve())
}

/// Relies on `bls12_381::G2Affine::is_torsion_free`: a point on the curve
/// and free of torsion is `k * H` for exactly one `k < q`.
#[verifier::external_body]
fn g2_is_torsion_free(p: &G2Affine) -> (r: bool)
    ensures
        r == torsion_free2(*p),
        r && on_curve2(*p) ==> 0 <= log2(*p) < order(),
{
    bool::from(p.is_torsion_free())
}

/// Relies on `bls12_381::G2Affine::to_compressed`.
#[verifier::external_body]
fn g2_to_compressed(p: &G2Affine) -> (r: [u8; 96])
    ensures
        r@ == g2_encoding(*p),
{
    p.to_compressed()
}

/// Relies on `bls12_381::pairing`: bilinear, with `e(G, H)` generating Gt.
#[verifier::external_body]
fn pairing(p: &G1Affine, q: &G2Affine) -> (r: Gt)
    ensures
        in_g1(*p) && in_g2(*q) ==> log_t(r) == fmul(log1(*p), log2(*q)),
{
    bls12_381::pairing(p, q)
}

/// Relies on `bls12_381::Gt::identity`.
#[verifier::external_body]
fn gt_identity() -> (r: Gt)
    ensures
        log_t(r) == 0,
{
    bls12_381::Gt::identity()
}

/// Relies on `bls12_381::Gt`'s `Add`, the group law of Gt written additively.
#[verifier::external_body]
fn gt_add(a: &Gt, b: &Gt) -> (r: Gt)
    ensures
        log_t(r) == fadd(log_t(*a), log_t(*b)),
{
    a + b
}

/// Relies on `ConstantTimeEq for bls12_381::Gt`: every element of the type
/// lies in the `q`-order group, so elements are equal exactly when their
/// logarithms are.
#[verifier::external_body]
fn gt_ct_eq(a: &Gt, b: &Gt) -> (r: bool)
    ensures
        r == (log_t(*a) % order() == log_t(*b) % order()),
{
    bool::from(a.ct_eq(b))
}

/// The backend over the `bls12_381` crate.
#[derive(Debug, PartialEq, Eq)]
pub struct RcBls12_381;

#[allow(non_snake_case)]
impl RcBls12_381 {
    /// The scalar `num mod q`.
    pub fn scalar(num: u64) -> (r: Scalar)
        ensures
            scalar_value(r) == num as int % order(),
    {
        scalar_from_u64(num)
    }

    /// The scalar zero.
    pub fn zero() -> (r: Scalar)
        ensures
            scalar_value(r) == 0,
        opens_invariants none
        no_unwind
    {
        scalar_from_u64(0)
    }

    /// The scalar one.
    pub fn one() -> (r: Scalar)
        ensures
            scalar_value(r) == 1,
    {
        proof {
            vstd::arithmetic::div_mod::lemma_small_mod(1, order() as nat);
        }
        scalar_from_u64(1)
    }

    /// A scalar drawn uniformly, from 512 random bits reduced modulo `q`.
    pub fn rscalar() -> (r: Scalar)
        ensures
            0 <= scalar_value(r) < order(),
    {
        let bytes = random_wide_bytes();
        scalar_from_bytes_wide(&bytes)
    }

    /// A scalar drawn from the field's units: 512 random bits reduced modulo
    /// `q`, with a zero draw (of probability `1/q`) replaced by one; its
    /// inverse is computed to confirm that it is a unit.
    pub fn runit() -> (r: Scalar)
        ensures
            0 < scalar_value(r) < order(),
            invertible(scalar_value(r)),
    {
        let drawn = Self::rscalar();
        let zero = scalar_from_u64(0);
        let s = if scalar_ct_eq(&drawn, &zero) {
            Self::one()
        } else {
            drawn
        };
        let inverse = scalar_invert(&s);
        assert(fmul(scalar_value(s), scalar_value(inverse)) == 1);
        s
    }

    /// The sum of two scalars.
    pub fn add(a: &Scalar, b: &Scalar) -> (r: Scalar)
        ensures
            scalar_value(r) == fadd(scalar_value(*a), scalar_value(*b)),
    {
        scalar_add(a, b)
    }

    /// The product of two scalars.
    pub fn mul(a: &Scalar, b: &Scalar) -> (r: Scalar)
        ensures
            scalar_value(r) == fmul(scalar_value(*a), scalar_value(*b)),
    {
        scalar_mul(a, b)
    }

    /// The inverse of a non-zero scalar.
    pub fn inv(elem: &Scalar) -> (r: Scalar)
        requires
            scalar_value(*elem) != 0,
        ensures
            scalar_value(r) == finv(scalar_value(*elem)),
            fmul(scalar_value(*elem), scalar_value(r)) == 1,
    {
        scalar_invert(elem)
    }

    /// `base^exp`.
    pub fn pow(base: &Scalar, exp: usize) -> (r: Scalar)
        ensures
            scalar_value(r) == fpow(scalar_value(*base), exp as nat),
    {
        scalar_pow(base, exp as u64)
    }

    /// The generator `G` of G1.
    pub fn genG1() -> (r: G1Affine)
        ensures
            g1_ok(r),
            log1(r) == 1,
    {
        g1_generator()
    }

    /// The generator `H` of G2.
    pub fn genG2() -> (r: G2Affine)
        ensures
            g2_ok(r),
            log2(r) == 1,
    {
        g2_generator()
    }

    /// The zero (identity) of G1.
    pub fn zeroG1() -> (r: G1Affine)
        ensures
            g1_ok(r),
            log1(r) == 0,
    {
        g1_identity()
    }

    /// The zero (identity) of G2.
    pub fn zeroG2() -> (r: G2Affine)
        ensures
            g2_ok(r),
            log2(r) == 0,
    {
        g2_identity()
    }

    /// Whether a point lies in the prime-order group G1.
    pub fn contained_in_G1(elem: &G1Affine) -> (r: bool)
        ensures
            r == in_g1(*elem),
            r ==> g1_ok(*elem),
    {
        let on_curve = g1_is_on_curve(elem);
        let torsion_free = g1_is_torsion_free(elem);
        on_curve && torsion_free
    }

    /// Whether a point lies in the prime-order group G2.
    pub fn contained_in_G2(elem: &G2Affine) -> (r: bool)
        ensures
            r == in_g2(*elem),
            r ==> g2_ok(*elem),
    {
        let on_curve = g2_is_on_curve(elem);
        let torsion_free = g2_is_torsion_free(elem);
        on_curve && torsion_free
    }

    /// The uncompressed encoding of a point of G1.
    pub fn bytes1(elem: &G1Affine) -> (r: [u8; 96])
        ensures
            r@ == g1_encoding(*elem),
    {
        g1_to_uncompressed(elem)
    }

    /// The compressed encoding of a point of G2.
    pub fn bytes2(elem: &G2Affine) -> (r: [u8; 96])
        ensures
            r@ == g2_encoding(*elem),
    {
        g2_to_compressed(elem)
    }

    /// The sum of a sequence of points of G1 (zero for none).
    pub fn add1(elems: &[G1Affine]) -> (r: G1Affine)
        ensures
            (forall|i: int| 0 <= i < elems@.len() ==> in_g1(#[trigger] elems@[i])) ==> g1_ok(r)
                && log1(r) == sum_log1(elems@),
    {
        let mut acc = g1_identity();
        let mut i: usize = 0;
        while i < elems.len()
            invariant
                0 <= i <= elems@.len(),
                (forall|k: int| 0 <= k < elems@.len() ==> in_g1(#[trigger] elems@[k])) ==> g1_ok(
                    acc,
                ) && log1(acc) == sum_log1(elems@.subrange(0, i as int)),
            decreases elems@.len() - i,
        {
            acc = g1_add(&acc, &elems[i]);
            assert(elems@.subrange(0, i + 1).drop_last() =~= elems@.subrange(0, i as int));
            i = i + 1;
        }
        assert(elems@.subrange(0, elems@.len() as int) =~= elems@);
        acc
    }

    /// The sum of a sequence of points of G2 (zero for none).
    pub fn add2(elems: &[G2Affine]) -> (r: G2Affine)
        ensures
            (forall|i: int| 0 <= i < elems@.len() ==> in_g2(#[trigger] elems@[i])) ==> g2_ok(r)
                && log2(r) == sum_log2(elems@),
    {
        let mut acc = g2_identity();
        let mut i: usize = 0;
        while i < elems.len()
            invariant
                0 <= i <= elems@.len(),
                (forall|k: int| 0 <= k < elems@.len() ==> in_g2(#[trigger] elems@[k])) ==> g2_ok(
                    acc,
                ) && log2(acc) == sum_log2(elems@.subrange(0, i as int)),
            decreases elems@.len() - i,
        {
            acc = g2_add(&acc, &elems[i]);
            assert(elems@.subrange(0, i + 1).drop_last() =~= elems@.subrange(0, i as int));
            i = i + 1;
        }
        assert(elems@.subrange(0, elems@.len() as int) =~= elems@);
        acc
    }

    /// The sum of two points of G1.
    pub fn add1_pair(a: &G1Affine, b: &G1Affine) -> (r: G1Affine)
        ensures
            in_g1(*a) && in_g1(*b) ==> g1_ok(r) && log1(r) == fadd(log1(*a), log1(*b)),
    {
        g1_add(a, b)
    }

    /// The sum of two points of G2.
    pub fn add2_pair(a: &G2Affine, b: &G2Affine) -> (r: G2Affine)
        ensures
            in_g2(*a) && in_g2(*b) ==> g2_ok(r) && log2(r) == fadd(log2(*a), log2(*b)),
    {
        g2_add(a, b)
    }

    /// `factor * elem` in G1.
    pub fn smul1(factor: &Scalar, elem: &G1Affine) -> (r: G1Affine)
        ensures
            in_g1(*elem) ==> g1_ok(r) && log1(r) == fmul(scalar_value(*factor), log1(*elem)),
    {
        g1_mul(elem, factor)
    }

    /// `factor * elem` in G2.
    pub fn smul2(factor: &Scalar, elem: &G2Affine) -> (r: G2Affine)
        ensures
            in_g2(*elem) ==> g2_ok(r) && log2(r) == fmul(scalar_value(*factor), log2(*elem)),
    {
        g2_mul(elem, factor)
    }

    /// The pairing `e(left, right)`.
    pub fn pair(left: &G1Affine, right: &G2Affine) -> (r: Gt)
        ensures
            in_g1(*left) && in_g2(*right) ==> log_t(r) == fmul(log1(*left), log2(*right)),
    {
        pairing(left, right)
    }

    /// `k * G` for the generator `G` of G1.
    pub fn times_g(k: &Scalar) -> (r: G1Affine)
        ensures
            g1_ok(r),
            log1(r) == scalar_value(*k) % order(),
    {
        let g = g1_generator();
        g1_mul(&g, k)
    }

    /// `k * H` for the generator `H` of G2.
    pub fn times_h(k: &Scalar) -> (r: G2Affine)
        ensures
            g2_ok(r),
            log2(r) == scalar_value(*k) % order(),
    {
        let h = g2_generator();
        g2_mul(&h, k)
    }

    /// Hash to G1: SHA-512 of the bytes, read as a scalar, times `G`.
    pub fn hashG1(bytes: &Vec<u8>) -> (r: G1Affine)
        ensures
            g1_ok(r),
            log1(r) == hash_log(bytes@),
    {
        let digest = sha512(bytes);
        let factor = scalar_from_bytes_wide(&digest);
        let g = g1_generator();
        let r = g1_mul(&g, &factor);
        proof {
            lemma_mul_one(scalar_value(factor));
        }
        r
    }

    /// Constant-time equality of two scalars.
    pub fn ct_eq(a: &Scalar, b: &Scalar) -> (r: bool)
        ensures
            r == (scalar_value(*a) == scalar_value(*b)),
    {
        scalar_ct_eq(a, b)
    }

    /// Constant-time inequality of two scalars.
    pub fn ct_ne(a: &Scalar, b: &Scalar) -> (r: bool)
        ensures
            r == (scalar_value(*a) != scalar_value(*b)),
    {
        !scalar_ct_eq(a, b)
    }

    /// Constant-time equality of two points of G1.
    pub fn ct_eq1(a: &G1Affine, b: &G1Affine) -> (r: bool)
        ensures
            g1_ok(*a) && g1_ok(*b) ==> r == (log1(*a) == log1(*b)),
    {
        g1_ct_eq(a, b)
    }

    /// The unit of Gt, `e(G, H)^0`.
    pub fn unit() -> (r: Gt)
        ensures
            log_t(r) == 0,
    {
        gt_identity()
    }

    /// The group law of Gt.
    pub fn add_t(a: &Gt, b: &Gt) -> (r: Gt)
        ensures
            log_t(r) == fadd(log_t(*a), log_t(*b)),
    {
        gt_add(a, b)
    }

    /// Constant-time equality of two elements of Gt.
    pub fn ct_eq_t(a: &Gt, b: &Gt) -> (r: bool)
        ensures
            r == (log_t(*a) % order() == log_t(*b) % order()),
    {
        gt_ct_eq(a, b)
    }
}

/// The logarithm of `hashG1(bytes)`.
pub open spec fn hash_log(bytes: Seq<u8>) -> int {
    le_value(sha512_of(bytes)) % order()
}

/// Multiplying a field element by one leaves it unchanged.
pub proof fn lemma_mul_one(k: int)
    requires
        0 <= k < order(),
    ensures
        fmul(k, 1) == k,
        fmul(1, k) == k,
{
    vstd::arithmetic::div_mod::lemma_small_mod(k as nat, order() as nat);
}

} // verus!
