//! Univariate polynomials over the scalar field.
use vstd::prelude::*;
use crate::backend::{fadd, fmul, scalar_value, RcBls12_381};
use bls12_381::Scalar;
use crate::error::PolyError;

verus! {

/// A polynomial `c_0 + c_1 X + ... + c_k X^k`, kept with its nominal degree
/// `k` (leading zero coefficients count towards it).
#[derive(Clone, Debug, PartialEq)]
pub struct Univariate {
    pub coeffs: Vec<Scalar>,
    pub degree: isize,
}

/// The values of a sequence of scalars.
pub open spec fn values(s: Seq<Scalar>) -> Seq<int> {
    s.map_values(|c: Scalar| scalar_value(c))
}

/// `cs[0] + x * (cs[1] + x * (...))` in the scalar field.
pub open spec fn poly_eval(cs: Seq<int>, x: int) -> int
    decreases cs.len(),
{
    if cs.len() == 0 {
        0
    } else {
        fadd(cs[0], fmul(x, poly_eval(cs.drop_first(), x)))
    }
}

impl Univariate {
    /// The coefficient values of the polynomial, constant term first.
    pub open spec fn view_coeffs(&self) -> Seq<int> {
        values(self.coeffs@)
    }

    /// The polynomial with the given coefficients, constant term first.
    pub fn create(coeffs: Vec<Scalar>) -> (r: Self)
        requires
            coeffs@.len() <= isize::MAX,
        ensures
            r.coeffs@ == coeffs@,
            r.degree == coeffs@.len() - 1,
    {
        let degree = coeffs.len() as isize - 1;
        Univariate { coeffs, degree }
    }

    /// The polynomial whose coefficients are the given integers.
    pub fn create_from_u64(coeffs: &Vec<u64>) -> (r: Self)
        requires
            coeffs@.len() <= isize::MAX,
        ensures
            r.coeffs@.len() == coeffs@.len(),
            r.degree == coeffs@.len() - 1,
            forall|i: int|
                0 <= i < coeffs@.len() ==> scalar_value(#[trigger] r.coeffs@[i]) == coeffs@[i]
                    as int % crate::backend::order(),
    {
        let mut scalars: Vec<Scalar> = Vec::new();
        let mut i: usize = 0;
        while i < coeffs.len()
            invariant
                0 <= i <= coeffs@.len(),
                scalars@.len() == i,
                forall|k: int|
                    0 <= k < i ==> scalar_value(#[trigger] scalars@[k]) == coeffs@[k] as int
                        % crate::backend::order(),
            decreases coeffs@.len() - i,
        {
            scalars.push(RcBls12_381::scalar(coeffs[i]));
            i = i + 1;
        }
        Self::create(scalars)
    }

    /// The nominal degree: the number of coefficients minus one.
    pub fn degree(&self) -> (r: isize)
        ensures
            r == self.degree,
    {
        self.degree
    }

    /// The coefficient of `X^i`; zero beyond the stored coefficients.
    pub fn coeff(&self, i: usize) -> (r: Scalar)
        ensures
            scalar_value(r) == if i < self.coeffs@.len() {
                scalar_value(self.coeffs@[i as int])
            } else {
                0
            },
    {
        if i < self.coeffs.len() {
            self.coeffs[i]
        } else {
            RcBls12_381::zero()
        }
    }

    /// The value of the polynomial at `elm`, by Horner's rule; the
    /// polynomial of degree -1 cannot be evaluated (code 201).
    pub fn evaluate(&self, elm: &Scalar) -> (r: Result<Scalar, PolyError>)
        ensures
            self.degree == -1 ==> r is Err && r->Err_0.code == 201,
            self.degree != -1 ==> r is Ok && scalar_value(r->Ok_0) == poly_eval(
                self.view_coeffs(),
                scalar_value(*elm),
            ),
    {
        if self.degree == -1 {
            return Err(PolyError::create("Cannot evaluate: degree -1", "polynomial", 0, 201));
        }
        let len = self.coeffs.len();
        let mut result = RcBls12_381::zero();
        let mut i: usize = 0;
        while i < len
            invariant
                len == self.coeffs@.len(),
                0 <= i <= len,
                scalar_value(result) == poly_eval(
                    self.view_coeffs().subrange(len - i, len as int),
                    scalar_value(*elm),
                ),
            decreases len - i,
        {
            let ghost cs = self.view_coeffs();
            let c = self.coeffs[len - i - 1];
            let prod = RcBls12_381::mul(&result, elm);
            result = RcBls12_381::add(&prod, &c);
            proof {
                let lo = len - i - 1;
                let sub = cs.subrange(lo, len as int);
                assert(sub.drop_first() =~= cs.subrange(lo + 1, len as int));
                assert(sub[0] == scalar_value(c));
                vstd::arithmetic::mul::lemma_mul_is_commutative(
                    scalar_value(*elm),
                    poly_eval(cs.subrange(lo + 1, len as int), scalar_value(*elm)),
                );
                vstd::arithmetic::div_mod::lemma_add_mod_noop(0, 0, crate::backend::order());
            }
            i = i + 1;
        }
        proof {
            assert(self.view_coeffs().subrange(0, len as int) =~= self.view_coeffs());
        }
        Ok(result)
    }
}

} // verus!
