use vstd::prelude::*;
use ark_bls12_381::{Bls12_381, Fr, G1Affine, G2Affine};
use ark_ec::pairing::Pairing;
use ark_ec::{AffineRepr, CurveGroup};
use ark_ff::{BigInt, PrimeField, Zero};
use ark_serialize::{CanonicalDeserialize, CanonicalSerialize};
use crate::field::Scalar;

verus! {

/// Compressed size of a point of G1, in bytes.
pub const G1_BYTES: usize = 48;

/// Compressed size of a point of G2, in bytes.
pub const G2_BYTES: usize = 96;

/// What arkworks' checked compressed decoding of `e` yields, encoded again
/// in canonical compressed form; `None` where decoding fails (not on the
/// curve, not in the prime-order subgroup, or a malformed encoding).
pub uninterp spec fn g1_decode_of(e: Seq<u8>) -> Option<Seq<u8>>;

pub uninterp spec fn g2_decode_of(e: Seq<u8>) -> Option<Seq<u8>>;

/// The encoding of the sum of two points of G1.
pub uninterp spec fn g1_add_of(p: Seq<u8>, q: Seq<u8>) -> Seq<u8>;

/// The encoding of the negation of a point of G1.
pub uninterp spec fn g1_neg_of(p: Seq<u8>) -> Seq<u8>;

/// The encoding of `s * p` for a point `p` of G1.
pub uninterp spec fn g1_mul_of(p: Seq<u8>, s: int) -> Seq<u8>;

/// The encoding of the sum of two points of G2.
pub uninterp spec fn g2_add_of(p: Seq<u8>, q: Seq<u8>) -> Seq<u8>;

/// The encoding of `s * q` for a point `q` of G2.
pub uninterp spec fn g2_mul_of(q: Seq<u8>, s: int) -> Seq<u8>;

/// Whether the product of the pairings `e(ps[i], qs[i])` is the identity of
/// the target group.
pub uninterp spec fn pairing_product_is_one(ps: Seq<Seq<u8>>, qs: Seq<Seq<u8>>) -> bool;

/// The compressed encoding of the standard generator of G1.
pub open spec fn g1_generator_enc() -> Seq<u8> {
    seq![
        0x97, 0xf1, 0xd3, 0xa7, 0x31, 0x97, 0xd7, 0x94, 0x26, 0x95, 0x63, 0x8c,
        0x4f, 0xa9, 0xac, 0x0f, 0xc3, 0x68, 0x8c, 0x4f, 0x97, 0x74, 0xb9, 0x05,
        0xa1, 0x4e, 0x3a, 0x3f, 0x17, 0x1b, 0xac, 0x58, 0x6c, 0x55, 0xe8, 0x3f,
        0xf9, 0x7a, 0x1a, 0xef, 0xfb, 0x3a, 0xf0, 0x0a, 0xdb, 0x22, 0xc6, 0xbb,
    ]
}

/// The compressed encoding of the standard generator of G2.
pub open spec fn g2_generator_enc() -> Seq<u8> {
    seq![
        0x93, 0xe0, 0x2b, 0x60, 0x52, 0x71, 0x9f, 0x60, 0x7d, 0xac, 0xd3, 0xa0,
        0x88, 0x27, 0x4f, 0x65, 0x59, 0x6b, 0xd0, 0xd0, 0x99, 0x20, 0xb6, 0x1a,
        0xb5, 0xda, 0x61, 0xbb, 0xdc, 0x7f, 0x50, 0x49, 0x33, 0x4c, 0xf1, 0x12,
        0x13, 0x94, 0x5d, 0x57, 0xe5, 0xac, 0x7d, 0x05, 0x5d, 0x04, 0x2b, 0x7e,
        0x02, 0x4a, 0xa2, 0xb2, 0xf0, 0x8f, 0x0a, 0x91, 0x26, 0x08, 0x05, 0x27,
        0x2d, 0xc5, 0x10, 0x51, 0xc6, 0xe4, 0x7a, 0xd4, 0xfa, 0x40, 0x3b, 0x02,
        0xb4, 0x51, 0x0b, 0x64, 0x7a, 0xe3, 0xd1, 0x77, 0x0b, 0xac, 0x03, 0x26,
        0xa8, 0x05, 0xbb, 0xef, 0xd4, 0x80, 0x56, 0xc8, 0xc1, 0x21, 0xbd, 0xb8,
    ]
}

/// The compressed encoding of the point at infinity: both flag bits set.
pub open spec fn identity_enc(n: nat) -> Seq<u8> {
    Seq::new(n, |i: int| if i == 0 { 0xc0u8 } else { 0u8 })
}

pub open spec fn g1_views(ps: Seq<G1>) -> Seq<Seq<u8>> {
    ps.map_values(|p: G1| p@)
}

pub open spec fn g2_views(qs: Seq<G2>) -> Seq<Seq<u8>> {
    qs.map_values(|q: G2| q@)
}

/// A point of the prime-order subgroup of G1, held as its canonical
/// compressed encoding.
#[derive(Clone, Copy, Debug)]
pub struct G1 {
    enc: [u8; 48],
}

/// A point of the prime-order subgroup of G2, held as its canonical
/// compressed encoding.
#[derive(Clone, Copy, Debug)]
pub struct G2 {
    enc: [u8; 96],
}

impl View for G1 {
    type V = Seq<u8>;

    closed spec fn view(&self) -> Seq<u8> {
        self.enc@
    }
}

impl View for G2 {
    type V = Seq<u8>;

    closed spec fn view(&self) -> Seq<u8> {
        self.enc@
    }
}

impl G1 {
    #[verifier::type_invariant]
    closed spec fn canonical(self) -> bool {
        g1_decode_of(self.enc@) == Some(self.enc@)
    }

    /// Relies on `AffineRepr::generator` for `G1Affine`.
    #[verifier::external_body]
    pub fn generator() -> (r: G1)
        ensures
            r@ == g1_generator_enc(),
    {
        let mut e = [0u8; 48];
        G1Affine::generator().serialize_compressed(&mut e[..]).unwrap();
        G1 { enc: e }
    }

    /// Relies on `AffineRepr::zero` for `G1Affine`.
    #[verifier::external_body]
    pub fn identity() -> (r: G1)
        ensures
            r@ == identity_enc(48),
    {
        let mut e = [0u8; 48];
        G1Affine::zero().serialize_compressed(&mut e[..]).unwrap();
        G1 { enc: e }
    }

    /// Relies on `G1Affine + G1Affine`.
    #[verifier::external_body]
    pub fn add(&self, o: &G1) -> (r: G1)
        ensures
            r@ == g1_add_of(self@, o@),
    {
        let x = G1Affine::deserialize_compressed_unchecked(&self.enc[..]).unwrap();
        let y = G1Affine::deserialize_compressed_unchecked(&o.enc[..]).unwrap();
        let mut e = [0u8; 48];
        (x + y).into_affine().serialize_compressed(&mut e[..]).unwrap();
        G1 { enc: e }
    }

    /// Relies on `-G1Affine`.
    #[verifier::external_body]
    pub fn neg(&self) -> (r: G1)
        ensures
            r@ == g1_neg_of(self@),
    {
        let x = G1Affine::deserialize_compressed_unchecked(&self.enc[..]).unwrap();
        let mut e = [0u8; 48];
        (-x).serialize_compressed(&mut e[..]).unwrap();
        G1 { enc: e }
    }

    /// Relies on `G1Affine * Fr`, scalar multiplication.
    #[verifier::external_body]
    pub fn mul(&self, s: &Scalar) -> (r: G1)
        ensures
            r@ == g1_mul_of(self@, s@),
    {
        let x = G1Affine::deserialize_compressed_unchecked(&self.enc[..]).unwrap();
        let k = Fr::from_bigint(BigInt::new(s.limbs)).unwrap();
        let mut e = [0u8; 48];
        (x * k).into_affine().serialize_compressed(&mut e[..]).unwrap();
        G1 { enc: e }
    }

    /// Relies on `CanonicalDeserialize::deserialize_compressed` for
    /// `G1Affine`, which checks the curve and subgroup membership.
    #[verifier::external_body]
    pub fn from_bytes(b: &[u8]) -> (r: Option<G1>)
        ensures
            r matches Some(p) ==> g1_decode_of(b@) == Some(p@),
            r is None <==> g1_decode_of(b@) is None,
    {
        let p = G1Affine::deserialize_compressed(b).ok()?;
        let mut e = [0u8; 48];
        p.serialize_compressed(&mut e[..]).unwrap();
        Some(G1 { enc: e })
    }

    pub fn to_bytes(&self) -> (r: Vec<u8>)
        ensures
            r@ == self@,
            r.len() == G1_BYTES,
            g1_decode_of(r@) == Some(self@),
    {
        proof {
            use_type_invariant(self);
        }
        let mut v: Vec<u8> = Vec::new();
        let mut i: usize = 0;
        while i < 48
            invariant
                0 <= i <= 48,
                v@ == self.enc@.take(i as int),
            decreases 48 - i,
        {
            v.push(self.enc[i]);
            i = i + 1;
        }
        assert(self.enc@.take(48) =~= self.enc@);
        v
    }

    /// Two points are equal exactly when their canonical encodings are.
    pub fn equals(&self, o: &G1) -> (r: bool)
        ensures
            r == (self@ == o@),
    {
        let mut i: usize = 0;
        while i < 48
            invariant
                0 <= i <= 48,
                forall|k: int| 0 <= k < i ==> self.enc@[k] == o.enc@[k],
            decreases 48 - i,
        {
            if self.enc[i] != o.enc[i] {
                return false;
            }
            i = i + 1;
        }
        assert(self.enc@ =~= o.enc@);
        true
    }
}

pub proof fn lemma_g1_len(p: G1)
    ensures
        p@.len() == G1_BYTES,
{
}

pub proof fn lemma_g2_len(q: G2)
    ensures
        q@.len() == G2_BYTES,
{
}

/// A point of G1 is determined by its encoding.
pub proof fn lemma_g1_view_injective(p: G1, q: G1)
    requires
        p@ == q@,
    ensures
        p == q,
{
    assert forall|i: int| 0 <= i < 48 implies p.enc[i] == q.enc[i] by {
        assert(p.enc[i] == p.enc@[i]);
        assert(q.enc[i] == q.enc@[i]);
    }
    assert(p.enc =~= q.enc);
}

/// A point of G2 is determined by its encoding.
pub proof fn lemma_g2_view_injective(p: G2, q: G2)
    requires
        p@ == q@,
    ensures
        p == q,
{
    assert forall|i: int| 0 <= i < 96 implies p.enc[i] == q.enc[i] by {
        assert(p.enc[i] == p.enc@[i]);
        assert(q.enc[i] == q.enc@[i]);
    }
    assert(p.enc =~= q.enc);
}

impl G2 {
    #[verifier::type_invariant]
    closed spec fn canonical(self) -> bool {
        g2_decode_of(self.enc@) == Some(self.enc@)
    }

    /// Relies on `AffineRepr::generator` for `G2Affine`.
    #[verifier::external_body]
    pub fn generator() -> (r: G2)
        ensures
            r@ == g2_generator_enc(),
    {
        let mut e = [0u8; 96];
        G2Affine::generator().serialize_compressed(&mut e[..]).unwrap();
        G2 { enc: e }
    }

    /// Relies on `AffineRepr::zero` for `G2Affine`.
    #[verifier::external_body]
    pub fn identity() -> (r: G2)
        ensures
            r@ == identity_enc(96),
    {
        let mut e = [0u8; 96];
        G2Affine::zero().serialize_compressed(&mut e[..]).unwrap();
        G2 { enc: e }
    }

    /// Relies on `G2Affine + G2Affine`.
    #[verifier::external_body]
    pub fn add(&self, o: &G2) -> (r: G2)
        ensures
            r@ == g2_add_of(self@, o@),
    {
        let x = G2Affine::deserialize_compressed_unchecked(&self.enc[..]).unwrap();
        let y = G2Affine::deserialize_compressed_unchecked(&o.enc[..]).unwrap();
        let mut e = [0u8; 96];
        (x + y).into_affine().serialize_compressed(&mut e[..]).unwrap();
        G2 { enc: e }
    }

    /// Relies on `G2Affine * Fr`, scalar multiplication.
    #[verifier::external_body]
    pub fn mul(&self, s: &Scalar) -> (r: G2)
        ensures
            r@ == g2_mul_of(self@, s@),
    {
        let x = G2Affine::deserialize_compressed_unchecked(&self.enc[..]).unwrap();
        let k = Fr::from_bigint(BigInt::new(s.limbs)).unwrap();
        let mut e = [0u8; 96];
        (x * k).into_affine().serialize_compressed(&mut e[..]).unwrap();
        G2 { enc: e }
    }

    /// Relies on `CanonicalDeserialize::deserialize_compressed` for
    /// `G2Affine`, which checks the curve and subgroup membership.
    #[verifier::external_body]
    pub fn from_bytes(b: &[u8]) -> (r: Option<G2>)
        ensures
            r matches Some(q) ==> g2_decode_of(b@) == Some(q@),
            r is None <==> g2_decode_of(b@) is None,
    {
        let q = G2Affine::deserialize_compressed(b).ok()?;
        let mut e = [0u8; 96];
        q.serialize_compressed(&mut e[..]).unwrap();
        Some(G2 { enc: e })
    }

    pub fn to_bytes(&self) -> (r: Vec<u8>)
        ensures
            r@ == self@,
            r.len() == G2_BYTES,
            g2_decode_of(r@) == Some(self@),
    {
        proof {
            use_type_invariant(self);
        }
        let mut v: Vec<u8> = Vec::new();
        let mut i: usize = 0;
        while i < 96
            invariant
                0 <= i <= 96,
                v@ == self.enc@.take(i as int),
            decreases 96 - i,
        {
            v.push(self.enc[i]);
            i = i + 1;
        }
        assert(self.enc@.take(96) =~= self.enc@);
        v
    }

    /// Two points are equal exactly when their canonical encodings are.
    pub fn equals(&self, o: &G2) -> (r: bool)
        ensures
            r == (self@ == o@),
    {
        let mut i: usize = 0;
        while i < 96
            invariant
                0 <= i <= 96,
                forall|k: int| 0 <= k < i ==> self.enc@[k] == o.enc@[k],
            decreases 96 - i,
        {
            if self.enc[i] != o.enc[i] {
                return false;
            }
            i = i + 1;
        }
        assert(self.enc@ =~= o.enc@);
        true
    }
}

/// Relies on `Pairing::multi_pairing` for `Bls12_381`: whether the product
/// of the pairings of corresponding points is the identity. The Miller loop
/// pairs the two lists with `zip_eq`, which panics on unequal lengths.
#[verifier::external_body]
pub fn multi_pairing_is_one(ps: &Vec<G1>, qs: &Vec<G2>) -> (r: bool)
    requires
        ps.len() == qs.len(),
    ensures
        r == pairing_product_is_one(g1_views(ps@), g2_views(qs@)),
{
    let a = ps.iter().map(|p| G1Affine::deserialize_compressed_unchecked(&p.enc[..]).unwrap());
    let b = qs.iter().map(|q| G2Affine::deserialize_compressed_unchecked(&q.enc[..]).unwrap());
    Bls12_381::multi_pairing(a, b).is_zero()
}

} // verus!
