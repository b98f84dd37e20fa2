//! Quadratic arithmetic programs: the shape `(m, n, l)` and the polynomial
//! collections `u`, `v`, `w`, `t` that an SRS is specialised to.
use vstd::prelude::*;
use crate::error::QAPError;
use crate::polynomial::Univariate;

verus! {

/// A quadratic arithmetic program. `u`, `v`, `w` hold `m + 1` polynomials of
/// degree `n - 1` each, `t` has degree `n`, and `l + 1 <= m`.
#[derive(Clone, Debug, PartialEq)]
pub struct QAP {
    pub m: usize,
    pub n: usize,
    pub l: usize,
    pub u: Vec<Univariate>,
    pub v: Vec<Univariate>,
    pub w: Vec<Univariate>,
    pub t: Univariate,
}

/// The name under which the program is handed to the ceremony.
pub type ConstraintSystem = QAP;

/// Every polynomial of the collection has the given degree.
pub open spec fn all_of_degree(p: Seq<Univariate>, d: int) -> bool {
    forall|i: int| 0 <= i < p.len() ==> (#[trigger] p[i]).degree == d
}

/// The error code with which `QAP::create` refuses its arguments, or 0 when
/// it accepts them.
pub open spec fn qap_error_code(
    u: Seq<Univariate>,
    v: Seq<Univariate>,
    w: Seq<Univariate>,
    t: Univariate,
    l: int,
) -> u32 {
    if v.len() != u.len() || w.len() != u.len() {
        101
    } else if l + 1 > u.len() - 1 {
        102
    } else if !(t.degree >= 1 && all_of_degree(u, t.degree - 1) && all_of_degree(v, t.degree - 1)
        && all_of_degree(w, t.degree - 1)) {
        103
    } else {
        0
    }
}

/// The QAP's setup and verification equations agree: `u_i`, `v_i`, `w_i`
/// equal `u_{i+l+1}`, `v_{i+l+1}`, `w_{i+l+1}` for `i < m - l`, the
/// polynomials hold `n` coefficients (`t` holds `n + 1`), and the top
/// coefficient of `t` is zero. The default QAP is such a program.
pub open spec fn setup_matches_verify(qap: QAP) -> bool {
    &&& forall|k: int|
        0 <= k <= qap.m ==> (#[trigger] qap.u@[k]).coeffs@.len() == qap.n && qap.v@[k].coeffs@.len()
            == qap.n && qap.w@[k].coeffs@.len() == qap.n
    &&& qap.t.coeffs@.len() == qap.n + 1
    &&& qap.t.view_coeffs()[qap.n as int] == 0
    &&& forall|i: int|
        0 <= i < qap.m - qap.l ==> (#[trigger] qap.u@[i]).view_coeffs() == qap.u@[i + qap.l
            + 1].view_coeffs() && qap.v@[i].view_coeffs() == qap.v@[i + qap.l + 1].view_coeffs()
            && qap.w@[i].view_coeffs() == qap.w@[i + qap.l + 1].view_coeffs()
}

/// `u`, `v`, `w` all hold the polynomial `1` with `n` coefficients
/// `[1, 0, ..., 0]`, and `t` holds `1` with `n + 1` coefficients.
pub open spec fn is_default(qap: QAP) -> bool {
    &&& forall|k: int|
        0 <= k <= qap.m ==> (#[trigger] qap.u@[k]).view_coeffs() == unit_values(qap.n as int)
            && qap.v@[k].view_coeffs() == unit_values(qap.n as int) && qap.w@[k].view_coeffs()
            == unit_values(qap.n as int)
    &&& qap.t.view_coeffs() == unit_values(qap.n + 1)
}

/// The coefficient values `[1, 0, ..., 0]` with `len` entries.
pub open spec fn unit_values(len: int) -> Seq<int> {
    Seq::new(len as nat, |i: int| if i == 0 { 1int } else { 0int })
}

impl QAP {
    /// The shape and collections are those that `create` accepted.
    pub open spec fn wf(&self) -> bool {
        &&& self.u@.len() == self.m + 1
        &&& self.v@.len() == self.m + 1
        &&& self.w@.len() == self.m + 1
        &&& self.l + 1 <= self.m
        &&& self.n >= 1
        &&& self.n <= isize::MAX
        &&& self.m < usize::MAX
        &&& self.t.degree == self.n
        &&& all_of_degree(self.u@, self.n - 1)
        &&& all_of_degree(self.v@, self.n - 1)
        &&& all_of_degree(self.w@, self.n - 1)
    }

    /// Builds the program from its collections, with `m = |u| - 1` and
    /// `n = deg t`; fails with code 101, 102 or 103 (checked in that order).
    pub fn create(
        u: Vec<Univariate>,
        v: Vec<Univariate>,
        w: Vec<Univariate>,
        t: Univariate,
        l: usize,
    ) -> (r: Result<Self, QAPError>)
        requires
            u@.len() >= 1,
        ensures
            qap_error_code(u@, v@, w@, t, l as int) == 0 ==> r is Ok && r->Ok_0.wf() && r->Ok_0
                == (QAP { m: (u@.len() - 1) as usize, n: t.degree as usize, l, u, v, w, t }),
            qap_error_code(u@, v@, w@, t, l as int) != 0 ==> r is Err && r->Err_0.code
                == qap_error_code(u@, v@, w@, t, l as int),
    {
        let m = u.len() - 1;
        if v.len() != m + 1 || w.len() != m + 1 {
            return Err(QAPError::create("Unequal lengths for u, v, w", "constraints", 0, 101));
        }
        if l >= m {
            return Err(QAPError::create("l is not < m", "constraints", 0, 102));
        }
        if t.degree < 1 {
            return Err(QAPError::create("Detected degree unequal to n-1", "constraints", 0, 103));
        }
        let d = t.degree - 1;
        let ok_u = Self::check_degrees(&u, d);
        let ok_v = Self::check_degrees(&v, d);
        let ok_w = Self::check_degrees(&w, d);
        if !(ok_u && ok_v && ok_w) {
            return Err(QAPError::create("Detected degree unequal to n-1", "constraints", 0, 103));
        }
        let n = t.degree as usize;
        Ok(QAP { m, n, l, u, v, w, t })
    }

    /// Whether every polynomial of the collection has degree `d`.
    fn check_degrees(p: &Vec<Univariate>, d: isize) -> (r: bool)
        ensures
            r == all_of_degree(p@, d as int),
    {
        let mut i: usize = 0;
        while i < p.len()
            invariant
                0 <= i <= p@.len(),
                all_of_degree(p@.subrange(0, i as int), d as int),
            decreases p@.len() - i,
        {
            if p[i].degree != d {
                assert(!all_of_degree(p@, d as int)) by {
                    assert(p@[i as int].degree != d);
                }
                return false;
            }
            proof {
                assert forall|k: int| 0 <= k < i + 1 implies (#[trigger] p@.subrange(
                    0,
                    i + 1,
                )[k]).degree == d by {
                    if k < i {
                        assert(p@.subrange(0, i + 1)[k] == p@.subrange(0, i as int)[k]);
                    }
                }
            }
            i = i + 1;
        }
        proof {
            assert(p@.subrange(0, p@.len() as int) =~= p@);
        }
        true
    }

    /// The program with `u`, `v`, `w` all equal to `1` (written with degree
    /// `n - 1`) and `t = 1` (written with degree `n`); fails with code 102
    /// when `l + 1 > m`.
    pub fn create_default(m: usize, n: usize, l: usize) -> (r: Result<Self, QAPError>)
        requires
            n >= 1,
            m < usize::MAX,
            n < isize::MAX,
        ensures
            l + 1 <= m ==> r is Ok && r->Ok_0.wf() && r->Ok_0.m == m && r->Ok_0.n == n
                && r->Ok_0.l == l && setup_matches_verify(r->Ok_0) && is_default(r->Ok_0),
            l + 1 > m ==> r is Err && r->Err_0.code == 102,
    {
        let coeffs1 = Self::unit_coefficients(n);
        let coeffs2 = Self::unit_coefficients(n + 1);
        let mut u: Vec<Univariate> = Vec::new();
        let mut v: Vec<Univariate> = Vec::new();
        let mut w: Vec<Univariate> = Vec::new();
        let mut i: usize = 0;
        while i < m + 1
            invariant
                0 <= i <= m + 1,
                m < usize::MAX,
                n < isize::MAX,
                coeffs1@.len() == n,
                u@.len() == i && v@.len() == i && w@.len() == i,
                all_of_degree(u@, n - 1),
                all_of_degree(v@, n - 1),
                all_of_degree(w@, n - 1),
                coeffs1@[0] == 1,
                forall|k: int| 1 <= k < n ==> coeffs1@[k] == 0,
                forall|k: int|
                    0 <= k < i ==> (#[trigger] u@[k]).coeffs@.len() == n && u@[k].view_coeffs()
                        == unit_values(n as int) && v@[k].coeffs@.len() == n && v@[k].view_coeffs()
                        == unit_values(n as int) && w@[k].coeffs@.len() == n && w@[k].view_coeffs()
                        == unit_values(n as int),
            decreases m + 1 - i,
        {
            let pu = Univariate::create_from_u64(&coeffs1);
            let pv = Univariate::create_from_u64(&coeffs1);
            let pw = Univariate::create_from_u64(&coeffs1);
            proof {
                vstd::arithmetic::div_mod::lemma_small_mod(1, crate::backend::order() as nat);
                vstd::arithmetic::div_mod::lemma_small_mod(0, crate::backend::order() as nat);
                assert(pu.view_coeffs() =~= unit_values(n as int));
                assert(pv.view_coeffs() =~= unit_values(n as int));
                assert(pw.view_coeffs() =~= unit_values(n as int));
            }
            u.push(pu);
            v.push(pv);
            w.push(pw);
            i = i + 1;
        }
        let t = Univariate::create_from_u64(&coeffs2);
        proof {
            vstd::arithmetic::div_mod::lemma_small_mod(0, crate::backend::order() as nat);
            assert(coeffs2@[n as int] == 0);
            assert(t.view_coeffs()[n as int] == 0);
            vstd::arithmetic::div_mod::lemma_small_mod(1, crate::backend::order() as nat);
            assert(t.view_coeffs() =~= unit_values(n + 1));
        }
        Self::create(u, v, w, t, l)
    }

    /// `[1, 0, ..., 0]` with `len` entries.
    fn unit_coefficients(len: usize) -> (r: Vec<u64>)
        requires
            len >= 1,
        ensures
            r@.len() == len,
            r@[0] == 1,
            forall|i: int| 1 <= i < len ==> r@[i] == 0,
    {
        let mut r: Vec<u64> = Vec::new();
        r.push(1);
        while r.len() < len
            invariant
                1 <= r@.len() <= len,
                r@[0] == 1,
                forall|i: int| 1 <= i < r@.len() ==> r@[i] == 0,
            decreases len - r@.len(),
        {
            r.push(0);
        }
        r
    }

    /// The shape `(m, n, l)`.
    pub fn shape(&self) -> (r: (usize, usize, usize))
        ensures
            r == (self.m, self.n, self.l),
    {
        (self.m, self.n, self.l)
    }

    /// The shape `(m, n, l)`, under its other name.
    pub fn dimensions(&self) -> (r: (usize, usize, usize))
        ensures
            r == (self.m, self.n, self.l),
    {
        (self.m, self.n, self.l)
    }

    /// The collections `(u, v, w, t)`.
    pub fn collections(&self) -> (r: (&Vec<Univariate>, &Vec<Univariate>, &Vec<Univariate>, &Univariate))
        ensures
            *r.0 == self.u && *r.1 == self.v && *r.2 == self.w && *r.3 == self.t,
    {
        (&self.u, &self.v, &self.w, &self.t)
    }
}

} // verus!
