use vstd::prelude::*;
use crate::field::{fadd, finv, fmul, fpow, fsub, is_pow2, Scalar};
use crate::r1cs::{Constraint, LinearCombination, Variable};

verus! {

/// The largest evaluation domain: the scalar field has 2-adicity 32.
pub const MAX_DOMAIN: u64 = 0x1_0000_0000;

pub open spec fn scalars_view(v: Seq<Scalar>) -> Seq<int> {
    v.map_values(|s: Scalar| s@)
}

/// The position of a variable in the full assignment: the constant one,
/// then `np` public variables, then the private ones.
pub open spec fn full_index(v: Variable, np: nat) -> int {
    match v {
        Variable::One => 0,
        Variable::Public(i) => 1 + i,
        Variable::Private(i) => 1 + np + i,
    }
}

/// The coefficient of variable `j` in a list of terms.
pub open spec fn coeff_in(terms: Seq<(Scalar, Variable)>, j: int, np: nat) -> int
    decreases terms.len(),
{
    if terms.len() == 0 {
        0
    } else {
        let rest = coeff_in(terms.drop_last(), j, np);
        if full_index(terms.last().1, np) == j {
            fadd(rest, terms.last().0@)
        } else {
            rest
        }
    }
}

/// The A (0), B (1) or C (2) side of a constraint.
pub open spec fn side_lc(c: Constraint, side: int) -> LinearCombination {
    if side == 0 {
        c.a
    } else if side == 1 {
        c.b
    } else {
        c.c
    }
}

/// `A_j(x)` (side 0), `B_j(x)` or `C_j(x)` at a point where the Lagrange
/// polynomial of constraint `i` takes the value `lag[i]`: the polynomials
/// interpolate the coefficients of variable `j`, and the padding
/// constraints are all zero.
pub open spec fn qap_at(cons: Seq<Constraint>, side: int, j: int, np: nat, lag: Seq<int>) -> int
    decreases cons.len(),
{
    if cons.len() == 0 {
        0
    } else {
        fadd(
            qap_at(cons.drop_last(), side, j, np, lag),
            fmul(coeff_in(side_lc(cons.last(), side).terms@, j, np), lag[cons.len() - 1]),
        )
    }
}

/// The smallest power of two, from `d` on by doubling, that is at least `m`.
pub open spec fn next_pow2(m: nat, d: nat) -> nat
    decreases (if d < m {
        m - d
    } else {
        0
    }),
{
    if d == 0 || d >= m {
        d
    } else {
        next_pow2(m, 2 * d)
    }
}

/// The size of the evaluation domain for `m` constraints.
pub open spec fn domain_size(m: nat) -> nat {
    next_pow2(m, 1)
}

/// `Z(x) = x^d - 1`, the vanishing polynomial of the `d`-th roots of unity.
pub open spec fn vanishing_at(tau: int, d: nat) -> int {
    fsub(fpow(tau, d), 1)
}

pub open spec fn lagrange_den(omega: int, d: nat, tau: int, i: nat) -> int {
    fmul(d as int, fsub(tau, fpow(omega, i)))
}

/// The `i`-th Lagrange polynomial of the domain at `tau`:
/// `omega^i (tau^d - 1) / (d (tau - omega^i))`.
pub open spec fn lagrange_at(omega: int, d: nat, tau: int, i: nat) -> int {
    fmul(fmul(fpow(omega, i), vanishing_at(tau, d)), finv(lagrange_den(omega, d, tau, i)))
}

/// `base` to the power `e`.
pub fn pow(base: &Scalar, e: u64) -> (r: Scalar)
    ensures
        r@ == fpow(base@, e as nat),
{
    let mut acc = Scalar::one();
    let mut k: u64 = 0;
    while k < e
        invariant
            k <= e,
            acc@ == fpow(base@, k as nat),
        decreases e - k,
    {
        acc = acc.mul(base);
        k = k + 1;
    }
    acc
}

/// The domain size for `m` constraints, where the field has a root of unity
/// of that order.
pub fn domain_for(m: usize) -> (r: Option<u64>)
    ensures
        r matches Some(d) ==> d as nat == domain_size(m as nat) && 1 <= d <= MAX_DOMAIN && is_pow2(
            d as nat,
        ) && m <= d,
        r is None <==> domain_size(m as nat) > MAX_DOMAIN,
{
    let mut d: u64 = 1;
    proof {
        lemma_next_pow2_grows(m as nat, 1);
    }
    while d < m as u64 && d <= MAX_DOMAIN
        invariant
            1 <= d <= 2 * MAX_DOMAIN,
            next_pow2(m as nat, d as nat) == domain_size(m as nat),
            d <= MAX_DOMAIN ==> next_pow2(m as nat, d as nat) >= d,
            d > MAX_DOMAIN ==> domain_size(m as nat) > MAX_DOMAIN,
        decreases 2 * MAX_DOMAIN - d,
    {
        proof {
            lemma_next_pow2_grows(m as nat, 2 * d as nat);
            assert(next_pow2(m as nat, d as nat) == next_pow2(m as nat, 2 * d as nat));
        }
        d = d * 2;
    }
    assert(d <= MAX_DOMAIN ==> next_pow2(m as nat, d as nat) == d);
    proof {
        assert(is_pow2(1));
        lemma_domain_is_pow2(m as nat, 1);
    }
    if d > MAX_DOMAIN {
        None
    } else {
        Some(d)
    }
}

pub proof fn lemma_domain_is_pow2(m: nat, d: nat)
    requires
        is_pow2(d),
    ensures
        is_pow2(next_pow2(m, d)),
    decreases (if d < m {
        m - d
    } else {
        0
    }),
{
    if d != 0 && d < m {
        assert((2 * d) / 2 == d);
        assert(is_pow2(2 * d));
        lemma_domain_is_pow2(m, 2 * d);
    }
}

proof fn lemma_next_pow2_grows(m: nat, d: nat)
    requires
        d >= 1,
    ensures
        next_pow2(m, d) >= d,
    decreases (if d < m {
        m - d
    } else {
        0
    }),
{
    if d < m {
        lemma_next_pow2_grows(m, 2 * d);
    }
}

/// The coefficient of variable `j` in a linear combination.
pub fn coefficient(lc: &LinearCombination, j: usize, np: usize) -> (r: Scalar)
    ensures
        r@ == coeff_in(lc.terms@, j as int, np as nat),
{
    let mut acc = Scalar::zero();
    let mut t: usize = 0;
    while t < lc.terms.len()
        invariant
            0 <= t <= lc.terms.len(),
            acc@ == coeff_in(lc.terms@.take(t as int), j as int, np as nat),
        decreases lc.terms.len() - t,
    {
        assert(lc.terms@.take(t + 1).drop_last() =~= lc.terms@.take(t as int));
        let (c, v) = lc.terms[t];
        let hit = match v {
            Variable::One => j == 0,
            Variable::Public(i) => j >= 1 && i == j - 1,
            Variable::Private(i) => j > np && i == j - 1 - np,
        };
        if hit {
            acc = acc.add(&c);
        }
        t = t + 1;
    }
    assert(lc.terms@.take(lc.terms.len() as int) =~= lc.terms@);
    acc
}

pub(crate) fn side_of(c: &Constraint, side: u8) -> (r: &LinearCombination)
    requires
        side < 3,
    ensures
        *r == side_lc(*c, side as int),
{
    if side == 0 {
        &c.a
    } else if side == 1 {
        &c.b
    } else {
        &c.c
    }
}

/// `A_j`, `B_j` or `C_j` at the point that `lag` describes.
pub fn evaluate_at(cons: &Vec<Constraint>, side: u8, j: usize, np: usize, lag: &Vec<Scalar>) -> (r:
    Scalar)
    requires
        side < 3,
        lag.len() >= cons.len(),
    ensures
        r@ == qap_at(cons@, side as int, j as int, np as nat, scalars_view(lag@)),
{
    let mut acc = Scalar::zero();
    let mut i: usize = 0;
    while i < cons.len()
        invariant
            0 <= i <= cons.len(),
            lag.len() >= cons.len(),
            side < 3,
            acc@ == qap_at(cons@.take(i as int), side as int, j as int, np as nat, scalars_view(lag@)),
        decreases cons.len() - i,
    {
        assert(cons@.take(i + 1).drop_last() =~= cons@.take(i as int));
        let k = coefficient(side_of(&cons[i], side), j, np);
        acc = acc.add(&k.mul(&lag[i]));
        i = i + 1;
    }
    assert(cons@.take(cons.len() as int) =~= cons@);
    acc
}

/// The Lagrange polynomials of the first `m` points of the domain of size
/// `d` generated by `omega`, at `tau`; `None` where `tau` is a point of the
/// domain.
pub fn lagrange_basis(omega: &Scalar, d: u64, tau: &Scalar, m: usize) -> (r: Option<Vec<Scalar>>)
    ensures
        r matches Some(l) ==> l.len() == m && forall|i: int|
            0 <= i < m ==> (#[trigger] l@[i])@ == lagrange_at(omega@, d as nat, tau@, i as nat),
        r is None <==> exists|i: int|
            0 <= i < m && #[trigger] lagrange_den(omega@, d as nat, tau@, i as nat) == 0,
{
    let z = pow(tau, d).sub(&Scalar::one());
    let ds = Scalar::from_u64(d);
    let mut out: Vec<Scalar> = Vec::new();
    let mut w = Scalar::one();
    let mut i: usize = 0;
    while i < m
        invariant
            0 <= i <= m,
            out.len() == i,
            w@ == fpow(omega@, i as nat),
            z@ == vanishing_at(tau@, d as nat),
            ds@ == d as int,
            forall|k: int|
                0 <= k < i ==> (#[trigger] out@[k])@ == lagrange_at(omega@, d as nat, tau@, k as nat),
            forall|k: int| 0 <= k < i ==> #[trigger] lagrange_den(omega@, d as nat, tau@, k as nat) != 0,
        decreases m - i,
    {
        let den = ds.mul(&tau.sub(&w));
        match den.inverse() {
            None => {
                let ghost k = i as int;
                assert(lagrange_den(omega@, d as nat, tau@, k as nat) == 0);
                assert(0 <= k < m);
                return None;
            },
            Some(inv) => {
                out.push(w.mul(&z).mul(&inv));
            },
        }
        w = w.mul(omega);
        i = i + 1;
    }
    Some(out)
}

} // verus!
