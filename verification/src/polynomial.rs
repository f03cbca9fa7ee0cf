//! Polynomials over the torus, with exact arithmetic in the negacyclic ring
//! `Z_m[X] / (X^n + 1)`: the ring every GLWE mask polynomial lives in.

use vstd::prelude::*;
use vstd::arithmetic::div_mod::{lemma_add_mod_noop, lemma_sub_mod_noop, lemma_small_mod};
use crate::torus::TorusElement;
use crate::params::PolynomialSize;

verus! {

/// A polynomial with torus coefficients, of fixed degree bound.
#[derive(Clone, Debug)]
pub struct Polynomial<T: TorusElement> {
    pub coefs: Vec<T>,
}

/// The signed contribution of position `k` to coefficient `j` of the
/// negacyclic product of `a` and `b` of degree bound `n`: products that wrap
/// past `X^n` come back negated, because `X^n == -1` in the ring.
pub open spec fn negacyclic_term<T: TorusElement>(
    a: Seq<T>,
    b: Seq<T>,
    n: int,
    j: int,
    k: int,
) -> int {
    if k <= j {
        a[k].as_int() * b[j - k].as_int()
    } else {
        0 - a[k].as_int() * b[n + j - k].as_int()
    }
}

/// The sum of the first `t` contributions to coefficient `j` of the
/// negacyclic product.
pub open spec fn negacyclic_prefix<T: TorusElement>(
    a: Seq<T>,
    b: Seq<T>,
    n: int,
    j: int,
    t: int,
) -> int
    decreases t,
{
    if t <= 0 {
        0
    } else {
        negacyclic_prefix(a, b, n, j, t - 1) + negacyclic_term(a, b, n, j, t - 1)
    }
}

/// Coefficient `j` of the negacyclic product of `a` and `b`, on the torus.
pub open spec fn negacyclic_coeff<T: TorusElement>(a: Seq<T>, b: Seq<T>, n: int, j: int) -> int {
    negacyclic_prefix(a, b, n, j, n) % T::modulus()
}

impl<T: TorusElement> Polynomial<T> {
    /// The number of coefficients.
    pub open spec fn len(self) -> int {
        self.coefs@.len() as int
    }

    /// The integer stored by coefficient `i`.
    pub open spec fn coef_int(self, i: int) -> int {
        self.coefs@[i].as_int()
    }

    /// Allocates the zero polynomial with `size` coefficients.
    pub fn allocate(size: PolynomialSize) -> (r: Self)
        ensures
            r.len() == size.0,
            forall|i: int| 0 <= i < size.0 ==> #[trigger] r.coef_int(i) == 0,
    {
        let mut coefs: Vec<T> = Vec::new();
        let mut i: usize = 0;
        while i < size.0
            invariant
                i <= size.0,
                coefs@.len() == i,
                forall|j: int| 0 <= j < i ==> (#[trigger] coefs@[j]).as_int() == 0,
            decreases size.0 - i,
        {
            coefs.push(T::zero());
            i = i + 1;
        }
        Polynomial { coefs }
    }

    /// Wraps a coefficient buffer as a polynomial.
    pub fn from_container(coefs: Vec<T>) -> (r: Self)
        ensures
            r.coefs@ == coefs@,
    {
        Polynomial { coefs }
    }

    /// The size of the polynomial.
    pub fn polynomial_size(&self) -> (r: PolynomialSize)
        ensures
            r.0 == self.len(),
    {
        PolynomialSize(self.coefs.len())
    }

    /// Fusing coefficientwise addition: adds `other` onto `self` in place.
    pub fn update_with_add(&mut self, other: &Self)
        requires
            old(self).len() == other.len(),
        ensures
            final(self).len() == old(self).len(),
            forall|i: int|
                0 <= i < old(self).len() ==> #[trigger] final(self).coef_int(i) == (old(
                    self,
                ).coef_int(i) + other.coef_int(i)) % T::modulus(),
    {
        let n = self.coefs.len();
        let mut i: usize = 0;
        while i < n
            invariant
                i <= n,
                self.coefs@.len() == n,
                other.len() == n,
                old(self).len() == n,
                forall|j: int| i <= j < n ==> self.coefs@[j] == old(self).coefs@[j],
                forall|j: int|
                    0 <= j < i ==> (#[trigger] self.coefs@[j]).as_int() == (old(self).coef_int(j)
                        + other.coef_int(j)) % T::modulus(),
            decreases n - i,
        {
            let v = self.coefs[i].wadd(other.coefs[i]);
            self.coefs.set(i, v);
            i = i + 1;
        }
    }

    /// Discarding coefficientwise addition: overwrites `self` with `a` plus
    /// `b`.
    pub fn fill_with_add(&mut self, a: &Self, b: &Self)
        requires
            old(self).len() == a.len(),
            a.len() == b.len(),
        ensures
            final(self).len() == old(self).len(),
            forall|i: int|
                0 <= i < a.len() ==> #[trigger] final(self).coef_int(i) == (a.coef_int(i)
                    + b.coef_int(i)) % T::modulus(),
    {
        let n = a.coefs.len();
        let mut i: usize = 0;
        while i < n
            invariant
                i <= n,
                self.coefs@.len() == n,
                a.len() == n,
                b.len() == n,
                forall|j: int|
                    0 <= j < i ==> (#[trigger] self.coefs@[j]).as_int() == (a.coef_int(j)
                        + b.coef_int(j)) % T::modulus(),
            decreases n - i,
        {
            let v = a.coefs[i].wadd(b.coefs[i]);
            self.coefs.set(i, v);
            i = i + 1;
        }
    }

    /// Discarding coefficientwise subtraction: overwrites `self` with `a`
    /// minus `b`.
    pub fn fill_with_sub(&mut self, a: &Self, b: &Self)
        requires
            old(self).len() == a.len(),
            a.len() == b.len(),
        ensures
            final(self).len() == old(self).len(),
            forall|i: int|
                0 <= i < a.len() ==> #[trigger] final(self).coef_int(i) == (a.coef_int(i)
                    - b.coef_int(i)) % T::modulus(),
    {
        let n = a.coefs.len();
        let mut i: usize = 0;
        while i < n
            invariant
                i <= n,
                self.coefs@.len() == n,
                a.len() == n,
                b.len() == n,
                forall|j: int|
                    0 <= j < i ==> (#[trigger] self.coefs@[j]).as_int() == (a.coef_int(j)
                        - b.coef_int(j)) % T::modulus(),
            decreases n - i,
        {
            let v = a.coefs[i].wsub(b.coefs[i]);
            self.coefs.set(i, v);
            i = i + 1;
        }
    }

    /// Discarding negacyclic multiplication: overwrites `self` with the
    /// exact product of `a` and `b` in `Z_m[X] / (X^n + 1)`, by the
    /// schoolbook sum of signed wrapped products.
    pub fn fill_with_negacyclic_mul(&mut self, a: &Self, b: &Self)
        requires
            old(self).len() == a.len(),
            a.len() == b.len(),
            a.len() >= 1,
        ensures
            final(self).len() == old(self).len(),
            forall|j: int|
                0 <= j < a.len() ==> #[trigger] final(self).coef_int(j) == negacyclic_coeff(
                    a.coefs@,
                    b.coefs@,
                    a.len(),
                    j,
                ),
    {
        proof {
            T::lemma_modulus();
        }
        let n = a.coefs.len();
        let mut j: usize = 0;
        while j < n
            invariant
                j <= n,
                self.coefs@.len() == n,
                a.len() == n,
                b.len() == n,
                n >= 1,
                T::modulus() > 1,
                forall|l: int|
                    0 <= l < j ==> (#[trigger] self.coefs@[l]).as_int() == negacyclic_coeff(
                        a.coefs@,
                        b.coefs@,
                        n as int,
                        l,
                    ),
            decreases n - j,
        {
            let mut acc = T::zero();
            let mut k: usize = 0;
            proof {
                lemma_small_mod(0, T::modulus() as nat);
            }
            while k < n
                invariant
                    k <= n,
                    j < n,
                    a.len() == n,
                    b.len() == n,
                    T::modulus() > 1,
                    acc.as_int() == negacyclic_prefix(a.coefs@, b.coefs@, n as int, j as int, k as int)
                        % T::modulus(),
                decreases n - k,
            {
                let ghost pre = negacyclic_prefix(a.coefs@, b.coefs@, n as int, j as int, k as int);
                if k <= j {
                    let t = a.coefs[k].wmul(b.coefs[j - k]);
                    proof {
                        lemma_add_mod_noop(
                            pre,
                            a.coefs@[k as int].as_int() * b.coefs@[j - k].as_int(),
                            T::modulus(),
                        );
                    }
                    acc = acc.wadd(t);
                } else {
                    let t = a.coefs[k].wmul(b.coefs[n - (k - j)]);
                    proof {
                        assert(n - (k - j) == n + j - k);
                        lemma_sub_mod_noop(
                            pre,
                            a.coefs@[k as int].as_int() * b.coefs@[n + j - k].as_int(),
                            T::modulus(),
                        );
                    }
                    acc = acc.wsub(t);
                }
                k = k + 1;
            }
            self.coefs.set(j, acc);
            j = j + 1;
        }
    }
}

} // verus!
