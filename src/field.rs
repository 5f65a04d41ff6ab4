use vstd::prelude::*;
use ark_ff::{BigInt, Field, PrimeField};
use ark_ff::fields::FftField;
use ark_bls12_381::Fr;
use crate::rng::{scalar_draw_of, SecureRng};

verus! {

/// 2^64.
pub open spec fn word() -> int {
    0x1_0000_0000_0000_0000
}

/// The order r of the BLS12-381 scalar field.
pub open spec fn modulus() -> int {
    0x73eda753299d7d48 * word() * word() * word() + 0x3339d80809a1d805 * word() * word()
        + 0x53bda402fffe5bfe * word() + 0xffffffff00000001
}

/// The integer held by four little-endian 64-bit limbs.
pub open spec fn limbs_value(l: Seq<u64>) -> int {
    l[0] as int + word() * (l[1] as int + word() * (l[2] as int + word() * (l[3] as int)))
}

pub open spec fn fadd(a: int, b: int) -> int {
    (a + b) % modulus()
}

pub open spec fn fsub(a: int, b: int) -> int {
    (a - b) % modulus()
}

pub open spec fn fmul(a: int, b: int) -> int {
    (a * b) % modulus()
}

/// The multiplicative inverse modulo r (r is prime, so it is unique).
pub open spec fn finv(a: int) -> int {
    choose|y: int| 0 <= y < modulus() && #[trigger] fmul(a, y) == 1
}

/// `a` to the power `e` in the field.
pub open spec fn fpow(a: int, e: nat) -> int
    decreases e,
{
    if e == 0 {
        1
    } else {
        fmul(fpow(a, (e - 1) as nat), a)
    }
}

pub open spec fn is_pow2(n: nat) -> bool
    decreases n,
{
    if n <= 1 {
        n == 1
    } else {
        n % 2 == 0 && is_pow2(n / 2)
    }
}

/// The primitive `n`-th root of unity that arkworks fixes for the scalar field.
pub uninterp spec fn root_of_unity_of(n: int) -> int;

proof fn lemma_digit(a: int, b: int, x: int, y: int)
    requires
        0 <= a < word(),
        0 <= b < word(),
        0 <= x,
        0 <= y,
        a + word() * x == b + word() * y,
    ensures
        a == b,
        x == y,
{
    let w = word();
    if x < y {
        assert(w * x + w <= w * y) by (nonlinear_arith)
            requires x < y, w > 0;
    } else if y < x {
        assert(w * y + w <= w * x) by (nonlinear_arith)
            requires y < x, w > 0;
    }
}

/// Four limbs are determined by the integer they hold.
proof fn lemma_limbs_injective(a: Seq<u64>, b: Seq<u64>)
    requires
        a.len() == 4,
        b.len() == 4,
        limbs_value(a) == limbs_value(b),
    ensures
        a == b,
{
    let w = word();
    let xa2 = a[2] as int + w * (a[3] as int);
    let xb2 = b[2] as int + w * (b[3] as int);
    assert(xa2 >= 0 && xb2 >= 0) by (nonlinear_arith)
        requires xa2 == a[2] as int + w * (a[3] as int), xb2 == b[2] as int + w * (b[3] as int), w > 0,
            a[2] >= 0, a[3] >= 0, b[2] >= 0, b[3] >= 0;
    let xa1 = a[1] as int + w * xa2;
    let xb1 = b[1] as int + w * xb2;
    assert(xa1 >= 0 && xb1 >= 0) by (nonlinear_arith)
        requires xa1 == a[1] as int + w * xa2, xb1 == b[1] as int + w * xb2, w > 0, xa2 >= 0, xb2 >= 0,
            a[1] >= 0, b[1] >= 0;
    lemma_digit(a[0] as int, b[0] as int, xa1, xb1);
    lemma_digit(a[1] as int, b[1] as int, xa2, xb2);
    lemma_digit(a[2] as int, b[2] as int, a[3] as int, b[3] as int);
    assert(a =~= b);
}

/// An element of the scalar field, held as its canonical representative.
#[derive(Clone, Copy, Debug)]
pub struct Scalar {
    pub(crate) limbs: [u64; 4],
}

impl View for Scalar {
    type V = int;

    closed spec fn view(&self) -> int {
        limbs_value(self.limbs@)
    }
}

impl Scalar {
    #[verifier::type_invariant]
    closed spec fn canonical(self) -> bool {
        0 <= limbs_value(self.limbs@) < modulus()
    }

    /// The field element `v`: a 64-bit value is below r, so its limbs are
    /// `[v, 0, 0, 0]`.
    pub fn from_u64(v: u64) -> (r: Scalar)
        ensures
            r@ == v as int,
    {
        let limbs: [u64; 4] = [v, 0, 0, 0];
        assert(limbs@ =~= seq![v, 0u64, 0u64, 0u64]);
        assert(limbs_value(limbs@) == v as int);
        Scalar { limbs }
    }

    pub fn zero() -> (r: Scalar)
        ensures
            r@ == 0,
    {
        Scalar::from_u64(0)
    }

    pub fn one() -> (r: Scalar)
        ensures
            r@ == 1,
    {
        Scalar::from_u64(1)
    }

    /// Relies on `Fr + Fr`: addition modulo r.
    #[verifier::external_body]
    pub fn add(&self, o: &Scalar) -> (r: Scalar)
        ensures
            r@ == fadd(self@, o@),
    {
        let x = Fr::from_bigint(BigInt::new(self.limbs)).unwrap();
        let y = Fr::from_bigint(BigInt::new(o.limbs)).unwrap();
        Scalar { limbs: (x + y).into_bigint().0 }
    }

    /// Relies on `Fr - Fr`: subtraction modulo r.
    #[verifier::external_body]
    pub fn sub(&self, o: &Scalar) -> (r: Scalar)
        ensures
            r@ == fsub(self@, o@),
    {
        let x = Fr::from_bigint(BigInt::new(self.limbs)).unwrap();
        let y = Fr::from_bigint(BigInt::new(o.limbs)).unwrap();
        Scalar { limbs: (x - y).into_bigint().0 }
    }

    /// Relies on `Fr * Fr`: multiplication modulo r.
    #[verifier::external_body]
    pub fn mul(&self, o: &Scalar) -> (r: Scalar)
        ensures
            r@ == fmul(self@, o@),
    {
        let x = Fr::from_bigint(BigInt::new(self.limbs)).unwrap();
        let y = Fr::from_bigint(BigInt::new(o.limbs)).unwrap();
        Scalar { limbs: (x * y).into_bigint().0 }
    }

    /// Relies on `Field::inverse`: `None` exactly for zero.
    #[verifier::external_body]
    pub fn inverse(&self) -> (r: Option<Scalar>)
        ensures
            r.is_none() <==> self@ == 0,
            r matches Some(y) ==> y@ == finv(self@) && fmul(self@, y@) == 1,
    {
        let x = Fr::from_bigint(BigInt::new(self.limbs)).unwrap();
        x.inverse().map(|y| Scalar { limbs: y.into_bigint().0 })
    }

    /// Equality of field elements: canonical representatives are equal
    /// exactly when their limbs are.
    pub fn equals(&self, o: &Scalar) -> (r: bool)
        ensures
            r == (self@ == o@),
    {
        let mut i: usize = 0;
        while i < 4
            invariant
                0 <= i <= 4,
                forall|k: int| 0 <= k < i ==> self.limbs@[k] == o.limbs@[k],
            decreases 4 - i,
        {
            if self.limbs[i] != o.limbs[i] {
                proof {
                    if self@ == o@ {
                        lemma_limbs_injective(self.limbs@, o.limbs@);
                    }
                }
                return false;
            }
            i = i + 1;
        }
        assert(self.limbs@ =~= o.limbs@);
        true
    }

    /// Relies on `FftField::get_root_of_unity`. The scalar field sets a
    /// small subgroup of base 3, so it takes the mixed-radix branch: for
    /// `n = 2^k` with `k <= 32` it cubes the root of order `3 * 2^32` once,
    /// giving the root of order 2^32, and squares that `32 - k` times, so
    /// the result has order exactly `n`. It also answers `n = 3 * 2^k`,
    /// which this library never asks for.
    #[verifier::external_body]
    pub fn root_of_unity(n: u64) -> (r: Option<Scalar>)
        requires
            n <= 0x1_0000_0000,
        ensures
            is_pow2(n as nat) ==> r is Some,
            r matches Some(w) ==> w@ == root_of_unity_of(n as int) && w@ != 0,
            is_pow2(n as nat) ==> (r matches Some(w) ==> fpow(w@, n as nat) == 1 && (n > 1 ==> fpow(
                w@,
                (n / 2) as nat,
            ) != 1)),
    {
        Fr::get_root_of_unity(n).map(|w| Scalar { limbs: w.into_bigint().0 })
    }

    /// A field element drawn from `rng`.
    pub fn random(rng: &mut SecureRng) -> (r: Scalar)
        ensures
            0 <= r@ < modulus(),
            r@ == scalar_draw_of(old(rng).seed(), old(rng).pos()),
            final(rng).seed() == old(rng).seed(),
            final(rng).pos() == old(rng).pos() + 1,
    {
        rng.next_scalar()
    }

    /// The little-endian limbs of the canonical representative.
    pub fn to_limbs(&self) -> (r: [u64; 4])
        ensures
            limbs_value(r@) == self@,
    {
        self.limbs
    }
}

} // verus!
