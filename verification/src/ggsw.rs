//! GGSW ciphertexts and the external product: the noise-refresh and
//! function-evaluation primitive at the core of programmable bootstrapping.
//!
//! A GGSW ciphertext is a matrix of GLWE rows, one per (key component,
//! decomposition level) pair. The external product decomposes every
//! coefficient of the input GLWE ciphertext into digits, multiplies each
//! digit polynomial with the matching GGSW row in the negacyclic ring, and
//! accumulates; the result's noise comes from the rows and the
//! decomposition alone, never from the input's prior noise — which is what
//! lets bootstrapping refresh a ciphertext of any noise level.

use vstd::prelude::*;
use vstd::arithmetic::power2::pow2;
use vstd::arithmetic::div_mod::{lemma_add_mod_noop, lemma_small_mod};
use crate::torus::TorusElement;
use crate::params::{
    GlweDimension, GlweSize, PolynomialSize, DecompositionBaseLog, DecompositionLevelCount,
};
use crate::polynomial::{Polynomial, negacyclic_prefix};
use crate::glwe::GlweCiphertext;
use crate::decomposition::{decomp_wf, decomp_digit, decompose_torus};
use crate::noise::lemma_pow2_increases;

verus! {

/// The digits, as integers, of the coefficients of a polynomial at one
/// decomposition level: the digit polynomial the external product multiplies
/// with a GGSW row.
pub open spec fn digit_ints<T: TorusElement>(poly: Polynomial<T>, base_log: int, j: int) -> Seq<
    int,
> {
    Seq::new(
        poly.coefs@.len(),
        |c: int| decomp_digit(poly.coef_int(c), T::bits_spec(), base_log, j),
    )
}

/// The integers stored by a polynomial's coefficients.
pub open spec fn poly_ints<T: TorusElement>(poly: Polynomial<T>) -> Seq<int> {
    Seq::new(poly.coefs@.len(), |c: int| poly.coef_int(c))
}

/// The negacyclic convolution of two integer sequences, truncated to the
/// first `t` contributions of coefficient `j`: contributions that wrap past
/// `X^n` come back negated.
pub open spec fn negacyclic_prefix_ints(a: Seq<int>, b: Seq<int>, n: int, j: int, t: int) -> int
    decreases t,
{
    if t <= 0 {
        0
    } else {
        negacyclic_prefix_ints(a, b, n, j, t - 1) + (if t - 1 <= j {
            a[t - 1] * b[j - (t - 1)]
        } else {
            0 - a[t - 1] * b[n + j - (t - 1)]
        })
    }
}

/// A GGSW ciphertext: one GLWE row per (key component, level) pair, the
/// rows of one component adjacent, levels in order.
#[derive(Clone, Debug)]
pub struct GgswCiphertext<T: TorusElement> {
    pub rows: Vec<GlweCiphertext<T>>,
    pub glwe_dimension: GlweDimension,
    pub poly_size: PolynomialSize,
    pub decomp_base_log: DecompositionBaseLog,
    pub decomp_level_count: DecompositionLevelCount,
}

impl<T: TorusElement> GgswCiphertext<T> {
    /// One row per (component, level) pair, every row of the declared
    /// shape, under decomposition settings that fit the torus.
    pub open spec fn wf(self) -> bool {
        &&& decomp_wf(
            self.decomp_base_log.0 as int,
            self.decomp_level_count.0 as int,
            T::bits_spec(),
        )
        &&& self.poly_size.0 >= 1
        &&& self.rows@.len() == (self.glwe_dimension.0 + 1) * self.decomp_level_count.0
        &&& forall|p: int|
            0 <= p < self.rows@.len() ==> (#[trigger] self.rows@[p]).wf() && self.rows@[p].dim()
                == self.glwe_dimension.0 && self.rows@[p].body.len() == self.poly_size.0
    }

    /// The dimension of the rows.
    pub fn glwe_dimension(&self) -> (r: GlweDimension)
        ensures
            r == self.glwe_dimension,
    {
        self.glwe_dimension
    }

    /// The degree bound of the rows' polynomials.
    pub fn polynomial_size(&self) -> (r: PolynomialSize)
        ensures
            r == self.poly_size,
    {
        self.poly_size
    }

    /// The number of decomposition levels.
    pub fn decomposition_level_count(&self) -> (r: DecompositionLevelCount)
        ensures
            r == self.decomp_level_count,
    {
        self.decomp_level_count
    }
}

/// The input polynomial that feeds flat pair `p`: mask component `p / level`
/// of the input, or its body for the last component.
pub open spec fn ep_source<T: TorusElement>(
    input: GlweCiphertext<T>,
    p: int,
    level: int,
) -> Polynomial<T> {
    let i = p / level;
    if i < input.dim() {
        input.mask@[i]
    } else {
        input.body
    }
}

/// One accumulation term of the external product at output component `t`,
/// coefficient `c`: the full negacyclic convolution of the digit polynomial
/// for flat pair `p` with component `t` of row `p`.
pub open spec fn ep_term<T: TorusElement>(
    ggsw: GgswCiphertext<T>,
    input: GlweCiphertext<T>,
    p: int,
    t: int,
    c: int,
) -> int {
    let level = ggsw.decomp_level_count.0 as int;
    let row = ggsw.rows@[p];
    let row_poly = if t < row.dim() {
        row.mask@[t]
    } else {
        row.body
    };
    let n = ggsw.poly_size.0 as int;
    negacyclic_prefix_ints(
        digit_ints(ep_source(input, p, level), ggsw.decomp_base_log.0 as int, p % level),
        poly_ints(row_poly),
        n,
        c,
        n,
    )
}

/// The sum of the first `p` accumulation terms of the external product at
/// output component `t`, coefficient `c`.
pub open spec fn ep_acc<T: TorusElement>(
    ggsw: GgswCiphertext<T>,
    input: GlweCiphertext<T>,
    p: int,
    t: int,
    c: int,
) -> int
    decreases p,
{
    if p <= 0 {
        0
    } else {
        ep_acc(ggsw, input, p - 1, t, c) + ep_term(ggsw, input, p - 1, t, c)
    }
}

/// A negacyclic convolution over torus elements computes the convolution of
/// the integers its operands store.
pub(crate) proof fn lemma_negacyclic_ints_agree<T: TorusElement>(
    a: Seq<T>,
    b: Seq<T>,
    ai: Seq<int>,
    bi: Seq<int>,
    n: int,
    j: int,
    t: int,
)
    requires
        a.len() == n,
        b.len() == n,
        ai.len() == n,
        bi.len() == n,
        0 <= j < n,
        t <= n,
        forall|c: int| 0 <= c < n ==> (#[trigger] a[c]).as_int() == ai[c],
        forall|c: int| 0 <= c < n ==> (#[trigger] b[c]).as_int() == bi[c],
    ensures
        negacyclic_prefix(a, b, n, j, t) == negacyclic_prefix_ints(ai, bi, n, j, t),
    decreases t,
{
    if t > 0 {
        lemma_negacyclic_ints_agree(a, b, ai, bi, n, j, t - 1);
    }
}

/// The discarding external product: overwrites `output` with the sum, over
/// every (component, level) pair, of the input component's digit polynomial
/// multiplied in the negacyclic ring with the matching GGSW row. Every
/// output coefficient is exactly that accumulated convolution on the torus.
pub fn discard_external_product_glwe_ciphertext_ggsw_ciphertext<T: TorusElement>(
    output: &mut GlweCiphertext<T>,
    ggsw: &GgswCiphertext<T>,
    input: &GlweCiphertext<T>,
)
    requires
        ggsw.wf(),
        input.wf(),
        input.dim() == ggsw.glwe_dimension.0,
        input.body.len() == ggsw.poly_size.0,
        old(output).wf(),
        old(output).dim() == ggsw.glwe_dimension.0,
        old(output).body.len() == ggsw.poly_size.0,
        ggsw.glwe_dimension.0 < usize::MAX,
    ensures
        final(output).wf(),
        final(output).dim() == ggsw.glwe_dimension.0,
        final(output).body.len() == ggsw.poly_size.0,
        forall|t: int, c: int|
            0 <= t < ggsw.glwe_dimension.0 && 0 <= c < ggsw.poly_size.0
                ==> #[trigger] final(output).mask@[t].coef_int(c) == ep_acc(
                *ggsw,
                *input,
                ggsw.rows@.len() as int,
                t,
                c,
            ) % T::modulus(),
        forall|c: int|
            0 <= c < ggsw.poly_size.0 ==> #[trigger] final(output).body.coef_int(c) == ep_acc(
                *ggsw,
                *input,
                ggsw.rows@.len() as int,
                ggsw.glwe_dimension.0 as int,
                c,
            ) % T::modulus(),
{
    proof {
        T::lemma_modulus();
    }
    let n = ggsw.poly_size;
    let k = ggsw.glwe_dimension.0;
    let level = ggsw.decomp_level_count;
    let base_log = ggsw.decomp_base_log;
    let total = ggsw.rows.len();
    let mut out = GlweCiphertext::allocate(n, GlweSize(k + 1));
    proof {
        lemma_small_mod(0, T::modulus() as nat);
    }
    let mut p: usize = 0;
    let mut i: usize = 0;
    while i < k + 1
        invariant
            i <= k + 1,
            p == (i as int) * (level.0 as int),
            p <= total,
            total == ggsw.rows@.len(),
            ggsw.wf(),
            input.wf(),
            input.dim() == k,
            input.body.len() == n.0,
            k == ggsw.glwe_dimension.0,
            n == ggsw.poly_size,
            level == ggsw.decomp_level_count,
            base_log == ggsw.decomp_base_log,
            k < usize::MAX,
            T::modulus() > 1,
            out.wf(),
            out.mask@.len() == k,
            out.body.len() == n.0,
            forall|t: int, c: int|
                0 <= t < k && 0 <= c < n.0 ==> #[trigger] out.mask@[t].coef_int(c) == ep_acc(
                    *ggsw,
                    *input,
                    p as int,
                    t,
                    c,
                ) % T::modulus(),
            forall|c: int|
                0 <= c < n.0 ==> #[trigger] out.body.coef_int(c) == ep_acc(
                    *ggsw,
                    *input,
                    p as int,
                    k as int,
                    c,
                ) % T::modulus(),
        decreases k + 1 - i,
    {
        proof {
            vstd::arithmetic::mul::lemma_mul_inequality(
                i + 1 as int,
                k + 1 as int,
                level.0 as int,
            );
            assert((i + 1 as int) * (level.0 as int) == (i as int) * (level.0 as int) + level.0)
                by (nonlinear_arith);
            assert(((k + 1) as int) * (level.0 as int) == ggsw.rows@.len());
        }
        let mut j: usize = 0;
        while j < level.0
            invariant
                i <= k,
                j <= level.0,
                p == (i as int) * (level.0 as int) + j,
                p + (level.0 - j) <= total,
                total == ggsw.rows@.len(),
                ggsw.wf(),
                input.wf(),
                input.dim() == k,
                input.body.len() == n.0,
                k == ggsw.glwe_dimension.0,
                n == ggsw.poly_size,
                level == ggsw.decomp_level_count,
                base_log == ggsw.decomp_base_log,
                k < usize::MAX,
                T::modulus() > 1,
                out.wf(),
                out.mask@.len() == k,
                out.body.len() == n.0,
                forall|t: int, c: int|
                    0 <= t < k && 0 <= c < n.0 ==> #[trigger] out.mask@[t].coef_int(c) == ep_acc(
                        *ggsw,
                        *input,
                        p as int,
                        t,
                        c,
                    ) % T::modulus(),
                forall|c: int|
                    0 <= c < n.0 ==> #[trigger] out.body.coef_int(c) == ep_acc(
                        *ggsw,
                        *input,
                        p as int,
                        k as int,
                        c,
                    ) % T::modulus(),
            decreases level.0 - j,
        {
            proof {
                vstd::arithmetic::div_mod::lemma_fundamental_div_mod_converse(
                    p as int,
                    level.0 as int,
                    i as int,
                    j as int,
                );
            }
            let source: &Polynomial<T> = if i < k {
                &input.mask[i]
            } else {
                &input.body
            };
            let dig = digit_polynomial(source, base_log, level, j);
            let row = &ggsw.rows[p];
            let mut tmp = Polynomial::allocate(n);
            let ghost source_spec = ep_source(*input, p as int, level.0 as int);
            proof {
                assert(source_spec == *source);
            }
            let mut t: usize = 0;
            while t < k
                invariant
                    t <= k,
                    i <= k,
                    j < level.0,
                    p < total,
                    p == (i as int) * (level.0 as int) + j,
                    (p as int) / (level.0 as int) == i as int,
                    (p as int) % (level.0 as int) == j as int,
                    total == ggsw.rows@.len(),
                    ggsw.wf(),
                    input.wf(),
                    input.dim() == k,
                    input.body.len() == n.0,
                    k == ggsw.glwe_dimension.0,
                    n == ggsw.poly_size,
                    level == ggsw.decomp_level_count,
                    base_log == ggsw.decomp_base_log,
                    k < usize::MAX,
                    T::modulus() > 1,
                    out.wf(),
                    out.mask@.len() == k,
                    out.body.len() == n.0,
                    tmp.len() == n.0,
                    row == &ggsw.rows@[p as int],
                    dig.len() == n.0,
                    source_spec == ep_source(*input, p as int, level.0 as int),
                    source_spec.len() == n.0,
                    forall|c: int|
                        0 <= c < n.0 ==> (#[trigger] dig.coefs@[c]).as_int() == decomp_digit(
                            source_spec.coef_int(c),
                            T::bits_spec(),
                            base_log.0 as int,
                            j as int,
                        ),
                    forall|t2: int, c: int|
                        t <= t2 < k && 0 <= c < n.0 ==> #[trigger] out.mask@[t2].coef_int(c)
                            == ep_acc(*ggsw, *input, p as int, t2, c) % T::modulus(),
                    forall|t2: int, c: int|
                        0 <= t2 < t && 0 <= c < n.0 ==> #[trigger] out.mask@[t2].coef_int(c)
                            == ep_acc(*ggsw, *input, p + 1 as int, t2, c) % T::modulus(),
                    forall|c: int|
                        0 <= c < n.0 ==> #[trigger] out.body.coef_int(c) == ep_acc(
                            *ggsw,
                            *input,
                            p as int,
                            k as int,
                            c,
                        ) % T::modulus(),
                decreases k - t,
            {
                tmp.fill_with_negacyclic_mul(&dig, &row.mask[t]);
                proof {
                    lemma_ep_term_from_mul(
                        *ggsw,
                        *input,
                        tmp,
                        dig,
                        row.mask@[t as int],
                        p as int,
                        t as int,
                        n.0 as int,
                        j as int,
                        base_log.0 as int,
                        level.0 as int,
                    );
                }
                let ghost before = out;
                let mut acc = Polynomial::allocate(n);
                acc.fill_with_add(&out.mask[t], &tmp);
                out.mask.set(t, acc);
                proof {
                    assert forall|t2: int, c: int|
                        0 <= t2 < t + 1 && 0 <= c < n.0 implies #[trigger] out.mask@[
                    t2].coef_int(c) == ep_acc(*ggsw, *input, p + 1 as int, t2, c)
                        % T::modulus() by {
                        if t2 < t as int {
                            assert(out.mask@[t2] == before.mask@[t2]);
                        } else {
                            let s = ep_acc(*ggsw, *input, p as int, t2, c);
                            let term = ep_term(*ggsw, *input, p as int, t2, c);
                            assert(before.mask@[t2].coef_int(c) == s % T::modulus());
                            assert(out.mask@[t2].coef_int(c) == (before.mask@[t2].coef_int(c)
                                + tmp.coef_int(c)) % T::modulus());
                            lemma_add_mod_noop(s, term, T::modulus());
                        }
                    }
                    assert forall|t2: int, c: int|
                        (t + 1) <= t2 < k && 0 <= c < n.0 implies #[trigger] out.mask@[
                    t2].coef_int(c) == ep_acc(*ggsw, *input, p as int, t2, c) % T::modulus() by {
                        assert(out.mask@[t2] == before.mask@[t2]);
                    }
                }
                t = t + 1;
            }
            tmp.fill_with_negacyclic_mul(&dig, &row.body);
            proof {
                lemma_ep_term_from_mul(
                    *ggsw,
                    *input,
                    tmp,
                    dig,
                    row.body,
                    p as int,
                    k as int,
                    n.0 as int,
                    j as int,
                    base_log.0 as int,
                    level.0 as int,
                );
            }
            let ghost before = out;
            let mut acc = Polynomial::allocate(n);
            acc.fill_with_add(&out.body, &tmp);
            out.body = acc;
            proof {
                assert forall|c: int| 0 <= c < n.0 implies #[trigger] out.body.coef_int(c)
                    == ep_acc(*ggsw, *input, p + 1 as int, k as int, c) % T::modulus() by {
                    let s = ep_acc(*ggsw, *input, p as int, k as int, c);
                    let term = ep_term(*ggsw, *input, p as int, k as int, c);
                    assert(before.body.coef_int(c) == s % T::modulus());
                    lemma_add_mod_noop(s, term, T::modulus());
                }
                assert forall|t2: int, c: int|
                    0 <= t2 < k && 0 <= c < n.0 implies #[trigger] out.mask@[t2].coef_int(c)
                    == ep_acc(*ggsw, *input, p + 1 as int, t2, c) % T::modulus() by {
                    assert(out.mask@[t2] == before.mask@[t2]);
                }
            }
            p = p + 1;
            j = j + 1;
        }
        i = i + 1;
    }
    *output = out;
}

/// A freshly multiplied digit-row polynomial stores, reduced to the torus,
/// exactly the external product's term for that pair and component.
proof fn lemma_ep_term_from_mul<T: TorusElement>(
    ggsw: GgswCiphertext<T>,
    input: GlweCiphertext<T>,
    tmp: Polynomial<T>,
    dig: Polynomial<T>,
    row_poly: Polynomial<T>,
    p: int,
    t: int,
    n: int,
    j: int,
    base_log: int,
    level: int,
)
    requires
        n == ggsw.poly_size.0,
        n >= 1,
        level == ggsw.decomp_level_count.0,
        base_log == ggsw.decomp_base_log.0,
        0 <= p < ggsw.rows@.len(),
        p % level == j,
        tmp.len() == n,
        dig.len() == n,
        row_poly.len() == n,
        0 <= t <= ggsw.glwe_dimension.0,
        ggsw.rows@[p].dim() == ggsw.glwe_dimension.0,
        row_poly == (if t < ggsw.rows@[p].dim() {
            ggsw.rows@[p].mask@[t]
        } else {
            ggsw.rows@[p].body
        }),
        ep_source(input, p, level).len() == n,
        forall|c: int|
            0 <= c < n ==> (#[trigger] dig.coefs@[c]).as_int() == decomp_digit(
                ep_source(input, p, level).coef_int(c),
                T::bits_spec(),
                base_log,
                j,
            ),
        forall|c: int|
            0 <= c < n ==> #[trigger] tmp.coef_int(c) == negacyclic_prefix(
                dig.coefs@,
                row_poly.coefs@,
                n,
                c,
                n,
            ) % T::modulus(),
    ensures
        forall|c: int|
            0 <= c < n ==> #[trigger] tmp.coef_int(c) == ep_term(ggsw, input, p, t, c)
                % T::modulus(),
{
    assert forall|c: int| 0 <= c < n implies #[trigger] tmp.coef_int(c) == ep_term(
        ggsw,
        input,
        p,
        t,
        c,
    ) % T::modulus() by {
        lemma_negacyclic_ints_agree(
            dig.coefs@,
            row_poly.coefs@,
            digit_ints(ep_source(input, p, level), base_log, j),
            poly_ints(row_poly),
            n,
            c,
            n,
        );
    }
}

/// Builds the digit polynomial of `source` at level `j`: each coefficient's
/// digit, as a torus element.
fn digit_polynomial<T: TorusElement>(
    source: &Polynomial<T>,
    base_log: DecompositionBaseLog,
    level: DecompositionLevelCount,
    j: usize,
) -> (r: Polynomial<T>)
    requires
        decomp_wf(base_log.0 as int, level.0 as int, T::bits_spec()),
        j < level.0,
    ensures
        r.len() == source.len(),
        forall|c: int|
            0 <= c < source.len() ==> (#[trigger] r.coefs@[c]).as_int() == decomp_digit(
                source.coef_int(c),
                T::bits_spec(),
                base_log.0 as int,
                j as int,
            ),
{
    proof {
        T::lemma_modulus();
        assert((base_log.0 as int) <= (level.0 as int) * (base_log.0 as int)) by (nonlinear_arith)
            requires
                level.0 >= 1 && base_log.0 >= 0,
        ;
        lemma_pow2_increases(base_log.0 as nat, T::bits_spec());
    }
    let m = source.coefs.len();
    let mut coefs: Vec<T> = Vec::new();
    let mut c: usize = 0;
    while c < m
        invariant
            c <= m,
            m == source.coefs@.len(),
            coefs@.len() == c,
            j < level.0,
            decomp_wf(base_log.0 as int, level.0 as int, T::bits_spec()),
            pow2(base_log.0 as nat) <= T::modulus(),
            T::modulus() > 1,
            forall|l: int|
                0 <= l < c ==> (#[trigger] coefs@[l]).as_int() == decomp_digit(
                    source.coef_int(l),
                    T::bits_spec(),
                    base_log.0 as int,
                    j as int,
                ),
        decreases m - c,
    {
        let digits = decompose_torus(source.coefs[c], base_log, level);
        let d: T = T::from_bits_u64(digits[j]);
        proof {
            lemma_small_mod(digits@[j as int] as nat, T::modulus() as nat);
        }
        coefs.push(d);
        c = c + 1;
    }
    Polynomial { coefs }
}

} // verus!
