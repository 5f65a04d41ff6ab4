use vstd::prelude::*;
use crate::field::{fadd, finv, fmul, fpow, fsub, modulus, root_of_unity_of, Scalar};
use crate::group::{
    g1_add_of, g1_mul_of, g2_add_of, g2_mul_of, identity_enc, lemma_g1_view_injective,
    lemma_g2_view_injective, G1, G2,
};
use vstd::slice::slice_subrange;
use crate::codec::{decode_g1, decode_g2, g1_at, g1_enc_ok, g2_at, g2_enc_ok};
use crate::keygen::ProvingKey;
use crate::qap::{domain_for, domain_size, scalars_view, side_lc, side_of, MAX_DOMAIN};
use crate::r1cs::ConstraintSystem;
use crate::rng::{scalar_draw_of, SecureRng};

verus! {

#[derive(Clone, Copy, Debug, PartialEq, Eq, Structural)]
pub enum ProveError {
    /// A variable of the assignment has no value.
    AssignmentMissing,
    /// The assignment does not satisfy the constraints.
    InvalidWitness,
    /// The proving key does not have the shape of the constraint system.
    MalformedKey,
    /// Two sequences that go together differ in length.
    DimensionMismatch,
    /// The public inputs given differ from those of the assignment.
    PublicInputMismatch,
}

/// A Groth16 proof: `A` in G1, `B` in G2 and `C` in G1.
#[derive(Clone, Copy, Debug)]
pub struct Proof {
    pub a: G1,
    pub b: G2,
    pub c: G1,
}

/// Why bytes do not decode.
#[derive(Clone, Copy, Debug, PartialEq, Eq, Structural)]
pub enum DecodeError {
    /// The bytes do not have the length or framing of the encoding.
    MalformedKey,
    /// A point is not on the curve or not in the prime-order subgroup.
    InvalidPoint,
}

/// The size of an encoded proof: `A`, `B` and `C` compressed, in order.
pub const PROOF_BYTES: usize = 192;

/// `bytes` is the encoding of `p`: `A`, `B` and `C` in canonical
/// compressed form, in order.
pub open spec fn proof_decodes_as(bytes: Seq<u8>, p: Proof) -> bool {
    &&& bytes.len() == PROOF_BYTES
    &&& g1_at(bytes, 0, p.a)
    &&& g2_at(bytes, 48, p.b)
    &&& g1_at(bytes, 144, p.c)
}

impl Proof {
    /// The compressed points `A`, `B`, `C`, which decode back to this proof.
    pub fn serialize(&self) -> (r: Vec<u8>)
        ensures
            r@ == self.a@ + self.b@ + self.c@,
            proof_decodes_as(r@, *self),
    {
        let mut v = self.a.to_bytes();
        let mut b = self.b.to_bytes();
        let mut c = self.c.to_bytes();
        let ghost (va, vb, vc) = (v@, b@, c@);
        v.append(&mut b);
        v.append(&mut c);
        assert(v@.subrange(0, 48) =~= va);
        assert(v@.subrange(48, 144) =~= vb);
        assert(v@.subrange(144, 192) =~= vc);
        v
    }

    /// Reads a proof, checking that each point is on the curve, in the
    /// prime-order subgroup, and in canonical form.
    pub fn deserialize(data: &[u8]) -> (r: Result<Proof, DecodeError>)
        ensures
            data.len() != PROOF_BYTES ==> r == Err::<Proof, DecodeError>(DecodeError::MalformedKey),
            data.len() == PROOF_BYTES && r is Err ==> r == Err::<Proof, DecodeError>(DecodeError::InvalidPoint),
            r is Ok <==> exists|p: Proof| proof_decodes_as(data@, p),
            r matches Ok(p) ==> proof_decodes_as(data@, p) && data@ == p.a@ + p.b@ + p.c@,
    {
        let ghost some = exists|p: Proof| proof_decodes_as(data@, p);
        let ghost w = choose|p: Proof| proof_decodes_as(data@, p);
        if data.len() != PROOF_BYTES {
            return Err(DecodeError::MalformedKey);
        }
        let a = match decode_g1(slice_subrange(data, 0, 48)) {
            Ok(x) => x,
            Err(e) => {
                assert(some ==> g1_enc_ok(data@.subrange(0, 48), w.a));
                return Err(e);
            },
        };
        let b = match decode_g2(slice_subrange(data, 48, 144)) {
            Ok(x) => x,
            Err(e) => {
                assert(some ==> g2_enc_ok(data@.subrange(48, 144), w.b));
                return Err(e);
            },
        };
        let c = match decode_g1(slice_subrange(data, 144, 192)) {
            Ok(x) => x,
            Err(e) => {
                assert(some ==> g1_enc_ok(data@.subrange(144, 192), w.c));
                return Err(e);
            },
        };
        let out = Proof { a, b, c };
        assert(data@ =~= data@.subrange(0, 48) + data@.subrange(48, 144) + data@.subrange(144, 192));
        assert(proof_decodes_as(data@, out));
        Ok(out)
    }
}

/// Decoding the encoding of a proof gives that proof back: every proof
/// that some bytes decode as is the same one.
pub proof fn lemma_proof_round_trip(bytes: Seq<u8>, p: Proof, q: Proof)
    requires
        proof_decodes_as(bytes, p),
        proof_decodes_as(bytes, q),
    ensures
        p == q,
{
    lemma_g1_view_injective(p.a, q.a);
    lemma_g2_view_injective(p.b, q.b);
    lemma_g1_view_injective(p.c, q.c);
}

/// The encoding is canonical: bytes that differ anywhere, one flipped bit
/// included, never decode to the same proof.
pub proof fn lemma_proof_encoding_injective(b1: Seq<u8>, b2: Seq<u8>, p: Proof)
    requires
        proof_decodes_as(b1, p),
        proof_decodes_as(b2, p),
    ensures
        b1 == b2,
{
    assert(b1 =~= b1.subrange(0, 48) + b1.subrange(48, 144) + b1.subrange(144, 192));
    assert(b2 =~= b2.subrange(0, 48) + b2.subrange(48, 144) + b2.subrange(144, 192));
}

/// `sum_i w_i c_i` in the field.
pub open spec fn dot(w: Seq<int>, c: Seq<int>) -> int
    decreases w.len(),
{
    if w.len() == 0 || c.len() == 0 {
        0
    } else {
        fadd(dot(w.drop_last(), c.drop_last()), fmul(w.last(), c.last()))
    }
}

/// `sum_i s_i P_i` in G1, summed from the identity in index order.
pub open spec fn g1_msm(ps: Seq<Seq<u8>>, s: Seq<int>) -> Seq<u8>
    decreases s.len(),
{
    if s.len() == 0 || ps.len() == 0 {
        identity_enc(48)
    } else {
        g1_add_of(g1_msm(ps.drop_last(), s.drop_last()), g1_mul_of(ps.last(), s.last()))
    }
}

/// `sum_i s_i Q_i` in G2, summed from the identity in index order.
pub open spec fn g2_msm(qs: Seq<Seq<u8>>, s: Seq<int>) -> Seq<u8>
    decreases s.len(),
{
    if s.len() == 0 || qs.len() == 0 {
        identity_enc(96)
    } else {
        g2_add_of(g2_msm(qs.drop_last(), s.drop_last()), g2_mul_of(qs.last(), s.last()))
    }
}

/// The inner product of a witness with a coefficient vector of the same
/// length.
pub fn compute_linear_combination(witness: &[Scalar], coefficients: &[Scalar]) -> (r: Result<
    Scalar,
    ProveError,
>)
    ensures
        r is Err <==> witness.len() != coefficients.len(),
        r is Err ==> r == Err::<Scalar, ProveError>(ProveError::DimensionMismatch),
        r matches Ok(x) ==> x@ == dot(scalars_view(witness@), scalars_view(coefficients@)),
{
    if witness.len() != coefficients.len() {
        return Err(ProveError::DimensionMismatch);
    }
    let mut acc = Scalar::zero();
    let mut i: usize = 0;
    while i < witness.len()
        invariant
            0 <= i <= witness.len(),
            witness.len() == coefficients.len(),
            acc@ == dot(scalars_view(witness@.take(i as int)), scalars_view(coefficients@.take(i as int))),
        decreases witness.len() - i,
    {
        assert(scalars_view(witness@.take(i + 1)).drop_last() =~= scalars_view(witness@.take(i as int)));
        assert(scalars_view(coefficients@.take(i + 1)).drop_last() =~= scalars_view(coefficients@.take(i as int)));
        acc = acc.add(&witness[i].mul(&coefficients[i]));
        i = i + 1;
    }
    assert(witness@.take(witness.len() as int) =~= witness@);
    assert(coefficients@.take(coefficients.len() as int) =~= coefficients@);
    Ok(acc)
}

pub open spec fn g1_views_of(ps: Seq<G1>) -> Seq<Seq<u8>> {
    ps.map_values(|p: G1| p@)
}

pub open spec fn g2_views_of(qs: Seq<G2>) -> Seq<Seq<u8>> {
    qs.map_values(|q: G2| q@)
}

/// The commitment `sum_i w_i P_i` to a witness over bases of the same
/// length.
pub fn compute_witness_commitment(witness: &[Scalar], bases: &[G1]) -> (r: Result<G1, ProveError>)
    ensures
        r is Err <==> witness.len() != bases.len(),
        r is Err ==> r == Err::<G1, ProveError>(ProveError::DimensionMismatch),
        r matches Ok(p) ==> p@ == g1_msm(g1_views_of(bases@), scalars_view(witness@)),
{
    if witness.len() != bases.len() {
        return Err(ProveError::DimensionMismatch);
    }
    let mut acc = G1::identity();
    let mut i: usize = 0;
    while i < witness.len()
        invariant
            0 <= i <= witness.len(),
            witness.len() == bases.len(),
            acc@ == g1_msm(g1_views_of(bases@.take(i as int)), scalars_view(witness@.take(i as int))),
        decreases witness.len() - i,
    {
        assert(scalars_view(witness@.take(i + 1)).drop_last() =~= scalars_view(witness@.take(i as int)));
        assert(g1_views_of(bases@.take(i + 1)).drop_last() =~= g1_views_of(bases@.take(i as int)));
        acc = acc.add(&bases[i].mul(&witness[i]));
        i = i + 1;
    }
    assert(witness@.take(witness.len() as int) =~= witness@);
    assert(bases@.take(bases.len() as int) =~= bases@);
    Ok(acc)
}

/// The commitment `sum_i w_i Q_i` in G2.
pub fn compute_witness_commitment_g2(witness: &[Scalar], bases: &[G2]) -> (r: Result<G2, ProveError>)
    ensures
        r is Err <==> witness.len() != bases.len(),
        r is Err ==> r == Err::<G2, ProveError>(ProveError::DimensionMismatch),
        r matches Ok(q) ==> q@ == g2_msm(g2_views_of(bases@), scalars_view(witness@)),
{
    if witness.len() != bases.len() {
        return Err(ProveError::DimensionMismatch);
    }
    let mut acc = G2::identity();
    let mut i: usize = 0;
    while i < witness.len()
        invariant
            0 <= i <= witness.len(),
            witness.len() == bases.len(),
            acc@ == g2_msm(g2_views_of(bases@.take(i as int)), scalars_view(witness@.take(i as int))),
        decreases witness.len() - i,
    {
        assert(scalars_view(witness@.take(i + 1)).drop_last() =~= scalars_view(witness@.take(i as int)));
        assert(g2_views_of(bases@.take(i + 1)).drop_last() =~= g2_views_of(bases@.take(i as int)));
        acc = acc.add(&bases[i].mul(&witness[i]));
        i = i + 1;
    }
    assert(witness@.take(witness.len() as int) =~= witness@);
    assert(bases@.take(bases.len() as int) =~= bases@);
    Ok(acc)
}

/// Every allocated variable has a value.
pub open spec fn values_present(cs: ConstraintSystem) -> bool {
    &&& forall|i: int| 0 <= i < cs.public_values.len() ==> (#[trigger] cs.public_values@[i]) is Some
    &&& forall|i: int| 0 <= i < cs.private_values.len() ==> (#[trigger] cs.private_values@[i]) is Some
}

pub open spec fn values_of(v: Seq<Option<Scalar>>) -> Seq<int> {
    v.map_values(|o: Option<Scalar>| o.unwrap()@)
}

/// The full assignment: the constant one, the public values, then the
/// private ones.
pub open spec fn full_assignment(cs: ConstraintSystem) -> Seq<int> {
    seq![1int] + values_of(cs.public_values@) + values_of(cs.private_values@)
}

/// The values of one side of every constraint over a domain of size `d`,
/// zero on the padding.
pub open spec fn side_evals(cs: ConstraintSystem, side: int, d: nat) -> Seq<int> {
    Seq::new(
        d,
        |i: int|
            if i < cs.constraints.len() {
                cs.eval_lc(side_lc(cs.constraints@[i], side)).unwrap()
            } else {
                0
            },
    )
}

/// `sum_i e_i x^i`.
pub open spec fn poly_at(e: Seq<int>, x: int) -> int
    decreases e.len(),
{
    if e.len() == 0 {
        0
    } else {
        fadd(poly_at(e.drop_last(), x), fmul(e.last(), fpow(x, (e.len() - 1) as nat)))
    }
}

/// The coefficients of the polynomial of degree below `d` that takes the
/// values `e` on the domain: the inverse discrete Fourier transform,
/// `c_k = d^-1 sum_i e_i (omega^-k)^i`.
pub open spec fn interpolate(e: Seq<int>, omega_inv: int, d_inv: int) -> Seq<int> {
    Seq::new(e.len(), |k: int| fmul(d_inv, poly_at(e, fpow(omega_inv, k as nat))))
}

/// The coefficient of `x^t` in the product of two polynomials, from the
/// terms of `a` in the prefix it is given.
pub open spec fn conv_at(a: Seq<int>, b: Seq<int>, t: int) -> int
    decreases a.len(),
{
    if a.len() == 0 {
        0
    } else {
        let i = a.len() - 1;
        fadd(
            conv_at(a.drop_last(), b, t),
            if 0 <= t - i < b.len() {
                fmul(a.last(), b[t - i])
            } else {
                0
            },
        )
    }
}

/// The coefficient of `x^t` in `a(x) b(x) - c(x)`.
pub open spec fn numerator_at(a: Seq<int>, b: Seq<int>, c: Seq<int>, t: int) -> int {
    fsub(conv_at(a, b, t), if 0 <= t < c.len() {
        c[t]
    } else {
        0
    })
}

/// The quotient of `a(x) b(x) - c(x)`, of degree at most `2d - 2`, by
/// `x^d - 1`.
pub open spec fn quotient(a: Seq<int>, b: Seq<int>, c: Seq<int>, d: nat) -> Seq<int> {
    Seq::new((d - 1) as nat, |k: int| numerator_at(a, b, c, k + d))
}

/// The coefficient of `x^k`, for `k < d`, in the remainder of the division
/// of `a(x) b(x) - c(x)` by `x^d - 1`.
pub open spec fn remainder_at(a: Seq<int>, b: Seq<int>, c: Seq<int>, d: nat, k: int) -> int {
    fadd(numerator_at(a, b, c, k), if k < d - 1 {
        numerator_at(a, b, c, k + d)
    } else {
        0
    })
}

/// The division by `x^d - 1` leaves no remainder.
pub open spec fn divides_evenly(a: Seq<int>, b: Seq<int>, c: Seq<int>, d: nat) -> bool {
    forall|k: int| 0 <= k < d ==> #[trigger] remainder_at(a, b, c, d, k) == 0
}

/// The coefficients of `A(x)`, `B(x)` and `C(x)` for the assignment of `cs`.
pub open spec fn witness_polys(cs: ConstraintSystem) -> (Seq<int>, Seq<int>, Seq<int>) {
    let d = domain_size(cs.constraints.len() as nat);
    let wi = finv(root_of_unity_of(d as int));
    let di = finv(d as int);
    (
        interpolate(side_evals(cs, 0, d), wi, di),
        interpolate(side_evals(cs, 1, d), wi, di),
        interpolate(side_evals(cs, 2, d), wi, di),
    )
}

pub open spec fn witness_divides(cs: ConstraintSystem) -> bool {
    let (a, b, c) = witness_polys(cs);
    divides_evenly(a, b, c, domain_size(cs.constraints.len() as nat))
}

pub open spec fn witness_quotient(cs: ConstraintSystem) -> Seq<int> {
    let (a, b, c) = witness_polys(cs);
    quotient(a, b, c, domain_size(cs.constraints.len() as nat))
}

pub open spec fn input_matches(x: Scalar, v: Option<Scalar>) -> bool {
    v matches Some(y) && y@ == x@
}

/// Every public input given is the value of that public variable.
pub open spec fn inputs_match(x: Seq<Scalar>, v: Seq<Option<Scalar>>) -> bool {
    x.len() == v.len() && forall|k: int| 0 <= k < x.len() ==> #[trigger] input_matches(x[k], v[k])
}

/// The proving key has the shape of `cs`.
pub open spec fn key_fits(pk: ProvingKey, cs: ConstraintSystem) -> bool {
    let n = 1 + cs.public_values.len() + cs.private_values.len();
    let d = domain_size(cs.constraints.len() as nat);
    &&& d <= MAX_DOMAIN
    &&& pk.a_query.len() == n
    &&& pk.b_g1_query.len() == n
    &&& pk.b_g2_query.len() == n
    &&& pk.l_query.len() == cs.private_values.len()
    &&& pk.h_query.len() == d - 1
}

/// The proof that `pk`, the assignment of `cs` and the blinding scalars
/// `r` and `s` give:
/// `A = alpha + sum_j w_j A_j + r delta`,
/// `B = beta + sum_j w_j B_j + s delta` (in G2, and its twin `B'` in G1),
/// `C = sum_private w_j L_j + sum_k h_k H_k + s A + r B' - r s delta`.
pub open spec fn proof_from(pk: ProvingKey, cs: ConstraintSystem, r: int, s: int, proof: Proof) -> bool {
    let w = full_assignment(cs);
    let a = g1_add_of(
        g1_add_of(pk.alpha_g1@, g1_msm(g1_views_of(pk.a_query@), w)),
        g1_mul_of(pk.delta_g1@, r),
    );
    let b = g2_add_of(
        g2_add_of(pk.beta_g2@, g2_msm(g2_views_of(pk.b_g2_query@), w)),
        g2_mul_of(pk.delta_g2@, s),
    );
    let b1 = g1_add_of(
        g1_add_of(pk.beta_g1@, g1_msm(g1_views_of(pk.b_g1_query@), w)),
        g1_mul_of(pk.delta_g1@, s),
    );
    let c = g1_add_of(
        g1_add_of(
            g1_add_of(
                g1_add_of(
                    g1_msm(g1_views_of(pk.l_query@), values_of(cs.private_values@)),
                    g1_msm(g1_views_of(pk.h_query@), witness_quotient(cs)),
                ),
                g1_mul_of(a, s),
            ),
            g1_mul_of(b1, r),
        ),
        g1_mul_of(pk.delta_g1@, fsub(0, fmul(r, s))),
    );
    proof.a@ == a && proof.b@ == b && proof.c@ == c
}

/// The first step towards an even division: for a satisfied system the
/// values of the three sides meet `A * B = C` at every point of the
/// domain, the padding included. (That the interpolated product then
/// divides by `x^d - 1` is not proved here.)
pub proof fn lemma_satisfied_on_domain(cs: ConstraintSystem, d: nat, i: int)
    requires
        cs.satisfied(),
        cs.constraints.len() <= d,
        0 <= i < d,
    ensures
        fmul(side_evals(cs, 0, d)[i], side_evals(cs, 1, d)[i]) == side_evals(cs, 2, d)[i],
{
    if i < cs.constraints.len() {
        assert(cs.constraint_holds(i));
        assert(side_lc(cs.constraints@[i], 0) == cs.constraints@[i].a);
        assert(side_lc(cs.constraints@[i], 1) == cs.constraints@[i].b);
        assert(side_lc(cs.constraints@[i], 2) == cs.constraints@[i].c);
    } else {
        assert(modulus() > 0);
        vstd::arithmetic::div_mod::lemma_small_mod(0, modulus() as nat);
        assert(fmul(0, 0) == 0);
    }
}

/// The values of one side of every constraint, padded with zeros to `d`.
fn evaluations(cs: &ConstraintSystem, side: u8, d: u64) -> (r: Vec<Scalar>)
    requires
        side < 3,
        cs.fully_assigned(),
        cs.constraints.len() <= d <= MAX_DOMAIN,
    ensures
        scalars_view(r@) == side_evals(*cs, side as int, d as nat),
{
    let m = cs.constraints.len();
    let mut out: Vec<Scalar> = Vec::new();
    let mut i: u64 = 0;
    while i < d
        invariant
            side < 3,
            cs.fully_assigned(),
            m == cs.constraints.len(),
            m <= d <= MAX_DOMAIN,
            0 <= i <= d,
            out.len() == i,
            forall|k: int| 0 <= k < i ==> (#[trigger] out@[k])@ == side_evals(*cs, side as int, d as nat)[k],
        decreases d - i,
    {
        if (i as usize) < m {
            let con = &cs.constraints[i as usize];
            assert(cs.constraint_assigned(i as int));
            match cs.evaluate(side_of(con, side)) {
                Some(x) => out.push(x),
                None => {
                    out.push(Scalar::zero());
                },
            }
        } else {
            out.push(Scalar::zero());
        }
        i = i + 1;
    }
    assert(scalars_view(out@) =~= side_evals(*cs, side as int, d as nat));
    out
}

/// `sum_i e_i x^i`.
fn eval_poly(e: &Vec<Scalar>, x: &Scalar) -> (r: Scalar)
    ensures
        r@ == poly_at(scalars_view(e@), x@),
{
    let mut acc = Scalar::zero();
    let mut pw = Scalar::one();
    let mut i: usize = 0;
    while i < e.len()
        invariant
            0 <= i <= e.len(),
            pw@ == fpow(x@, i as nat),
            acc@ == poly_at(scalars_view(e@.take(i as int)), x@),
        decreases e.len() - i,
    {
        assert(scalars_view(e@.take(i + 1)).drop_last() =~= scalars_view(e@.take(i as int)));
        acc = acc.add(&e[i].mul(&pw));
        pw = pw.mul(x);
        i = i + 1;
    }
    assert(e@.take(e.len() as int) =~= e@);
    acc
}

/// The inverse discrete Fourier transform of `e`.
fn interpolate_exec(e: &Vec<Scalar>, omega_inv: &Scalar, d_inv: &Scalar) -> (r: Vec<Scalar>)
    ensures
        scalars_view(r@) == interpolate(scalars_view(e@), omega_inv@, d_inv@),
{
    let mut out: Vec<Scalar> = Vec::new();
    let mut x = Scalar::one();
    let mut k: usize = 0;
    while k < e.len()
        invariant
            0 <= k <= e.len(),
            out.len() == k,
            x@ == fpow(omega_inv@, k as nat),
            forall|j: int| 0 <= j < k ==> (#[trigger] out@[j])@ == interpolate(scalars_view(e@), omega_inv@, d_inv@)[j],
        decreases e.len() - k,
    {
        out.push(d_inv.mul(&eval_poly(e, &x)));
        x = x.mul(omega_inv);
        k = k + 1;
    }
    assert(scalars_view(out@) =~= interpolate(scalars_view(e@), omega_inv@, d_inv@));
    out
}

/// The coefficient of `x^t` in `a(x) b(x)`.
fn conv_exec(a: &Vec<Scalar>, b: &Vec<Scalar>, t: u64) -> (r: Scalar)
    ensures
        r@ == conv_at(scalars_view(a@), scalars_view(b@), t as int),
{
    let mut acc = Scalar::zero();
    let mut i: usize = 0;
    while i < a.len()
        invariant
            0 <= i <= a.len(),
            acc@ == conv_at(scalars_view(a@.take(i as int)), scalars_view(b@), t as int),
        decreases a.len() - i,
    {
        assert(scalars_view(a@.take(i + 1)).drop_last() =~= scalars_view(a@.take(i as int)));
        if (i as u64) <= t && t - (i as u64) < (b.len() as u64) {
            let j = (t - (i as u64)) as usize;
            acc = acc.add(&a[i].mul(&b[j]));
        } else {
            acc = acc.add(&Scalar::zero());
        }
        i = i + 1;
    }
    assert(a@.take(a.len() as int) =~= a@);
    acc
}

/// The coefficient of `x^t` in `a(x) b(x) - c(x)`.
fn numerator_exec(a: &Vec<Scalar>, b: &Vec<Scalar>, c: &Vec<Scalar>, t: u64) -> (r: Scalar)
    ensures
        r@ == numerator_at(scalars_view(a@), scalars_view(b@), scalars_view(c@), t as int),
{
    let p = conv_exec(a, b, t);
    if t < (c.len() as u64) {
        p.sub(&c[t as usize])
    } else {
        p.sub(&Scalar::zero())
    }
}

/// The full assignment and its private part, where every value is present.
fn assignment(cs: &ConstraintSystem) -> (r: Option<(Vec<Scalar>, Vec<Scalar>)>)
    ensures
        r is None <==> !values_present(*cs),
        r matches Some((w, wp)) ==> scalars_view(w@) == full_assignment(*cs) && scalars_view(wp@)
            == values_of(cs.private_values@),
{
    let mut w: Vec<Scalar> = Vec::new();
    w.push(Scalar::one());
    let mut i: usize = 0;
    while i < cs.public_values.len()
        invariant
            0 <= i <= cs.public_values.len(),
            scalars_view(w@) == seq![1int] + values_of(cs.public_values@.take(i as int)),
            forall|k: int| 0 <= k < i ==> (#[trigger] cs.public_values@[k]) is Some,
        decreases cs.public_values.len() - i,
    {
        let ghost before = scalars_view(w@);
        match cs.public_values[i] {
            Some(x) => {
                w.push(x);
                assert(scalars_view(w@) =~= before.push(x@));
            },
            None => {
                return None;
            },
        }
        assert(cs.public_values@.take(i + 1) =~= cs.public_values@.take(i as int).push(cs.public_values@[i as int]));
        assert(values_of(cs.public_values@.take(i + 1)) =~= values_of(cs.public_values@.take(i as int)).push(cs.public_values@[i as int].unwrap()@));
        assert(scalars_view(w@) =~= seq![1int] + values_of(cs.public_values@.take(i + 1)));
        i = i + 1;
    }
    assert(cs.public_values@.take(cs.public_values.len() as int) =~= cs.public_values@);
    let mut wp: Vec<Scalar> = Vec::new();
    let mut i: usize = 0;
    while i < cs.private_values.len()
        invariant
            0 <= i <= cs.private_values.len(),
            scalars_view(w@) == seq![1int] + values_of(cs.public_values@) + values_of(cs.private_values@.take(i as int)),
            scalars_view(wp@) == values_of(cs.private_values@.take(i as int)),
            forall|k: int| 0 <= k < cs.public_values.len() ==> (#[trigger] cs.public_values@[k]) is Some,
            forall|k: int| 0 <= k < i ==> (#[trigger] cs.private_values@[k]) is Some,
        decreases cs.private_values.len() - i,
    {
        let ghost before = scalars_view(w@);
        let ghost before_p = scalars_view(wp@);
        match cs.private_values[i] {
            Some(x) => {
                w.push(x);
                wp.push(x);
                assert(scalars_view(w@) =~= before.push(x@));
                assert(scalars_view(wp@) =~= before_p.push(x@));
            },
            None => {
                return None;
            },
        }
        assert(cs.private_values@.take(i + 1) =~= cs.private_values@.take(i as int).push(cs.private_values@[i as int]));
        assert(values_of(cs.private_values@.take(i + 1)) =~= values_of(cs.private_values@.take(i as int)).push(cs.private_values@[i as int].unwrap()@));
        assert(scalars_view(w@) =~= seq![1int] + values_of(cs.public_values@) + values_of(cs.private_values@.take(i + 1)));
        assert(scalars_view(wp@) =~= values_of(cs.private_values@.take(i + 1)));
        i = i + 1;
    }
    assert(cs.private_values@.take(cs.private_values.len() as int) =~= cs.private_values@);
    Some((w, wp))
}

/// The quotient `H(x)` of `A(x) B(x) - C(x)` by `x^d - 1`, where the
/// division leaves no remainder.
fn quotient_exec(a: &Vec<Scalar>, b: &Vec<Scalar>, c: &Vec<Scalar>, d: u64) -> (r: Option<Vec<Scalar>>)
    requires
        1 <= d <= MAX_DOMAIN,
    ensures
        r is None <==> !divides_evenly(scalars_view(a@), scalars_view(b@), scalars_view(c@), d as nat),
        r matches Some(h) ==> scalars_view(h@) == quotient(scalars_view(a@), scalars_view(b@), scalars_view(c@), d as nat),
{
    let ghost (av, bv, cv) = (scalars_view(a@), scalars_view(b@), scalars_view(c@));
    let mut h: Vec<Scalar> = Vec::new();
    let mut k: u64 = 0;
    while k + 1 < d
        invariant
            1 <= d <= MAX_DOMAIN,
            k < d,
            h.len() == k,
            av == scalars_view(a@),
            bv == scalars_view(b@),
            cv == scalars_view(c@),
            forall|j: int| 0 <= j < k ==> (#[trigger] h@[j])@ == numerator_at(av, bv, cv, j + d),
        decreases d - k,
    {
        h.push(numerator_exec(a, b, c, k + d));
        k = k + 1;
    }
    let zero = Scalar::zero();
    let mut k: u64 = 0;
    while k < d
        invariant
            1 <= d <= MAX_DOMAIN,
            k <= d,
            h.len() == d - 1,
            zero@ == 0,
            av == scalars_view(a@),
            bv == scalars_view(b@),
            cv == scalars_view(c@),
            forall|j: int| 0 <= j < d - 1 ==> (#[trigger] h@[j])@ == numerator_at(av, bv, cv, j + d),
            forall|j: int| 0 <= j < k ==> #[trigger] remainder_at(av, bv, cv, d as nat, j) == 0,
        decreases d - k,
    {
        let n = numerator_exec(a, b, c, k);
        let rem = if k + 1 < d {
            n.add(&h[k as usize])
        } else {
            n.add(&zero)
        };
        if !rem.equals(&zero) {
            assert(remainder_at(av, bv, cv, d as nat, k as int) != 0);
            return None;
        }
        k = k + 1;
    }
    assert(scalars_view(h@) =~= quotient(av, bv, cv, d as nat));
    Some(h)
}

/// Proves that the assignment of `cs` satisfies its constraints, with the
/// proving key of the same shape and blinding scalars drawn from `rng`.
/// An assignment that does not satisfy the constraints never gets a proof.
pub fn generate_proof(pk: &ProvingKey, cs: &ConstraintSystem, rng: &mut SecureRng) -> (r: Result<Proof, ProveError>)
    requires
        cs.public_values.len() + cs.private_values.len() < usize::MAX,
    ensures
        r == Err::<Proof, ProveError>(ProveError::AssignmentMissing) <==> !cs.fully_assigned() || (
        cs.satisfied() && !values_present(*cs)),
        r == Err::<Proof, ProveError>(ProveError::InvalidWitness) <==> cs.fully_assigned() && (!cs.satisfied() || (
        values_present(*cs) && key_fits(*pk, *cs) && !witness_divides(*cs))),
        r == Err::<Proof, ProveError>(ProveError::MalformedKey) <==> cs.fully_assigned() && cs.satisfied()
            && values_present(*cs) && !key_fits(*pk, *cs),
        r is Ok <==> cs.satisfied() && values_present(*cs) && key_fits(*pk, *cs) && witness_divides(*cs),
        r matches Ok(p) ==> proof_from(
            *pk,
            *cs,
            scalar_draw_of(old(rng).seed(), old(rng).pos()),
            scalar_draw_of(old(rng).seed(), old(rng).pos() + 1),
            p,
        ),
        final(rng).seed() == old(rng).seed(),
        final(rng).pos() == if r is Ok { old(rng).pos() + 2 } else { old(rng).pos() },
{
    match cs.is_satisfied() {
        Err(_) => {
            proof {
                cs.lemma_satisfied_assigned();
            }
            return Err(ProveError::AssignmentMissing);
        },
        Ok(false) => return Err(ProveError::InvalidWitness),
        Ok(true) => {},
    }
    let (w, wp) = match assignment(cs) {
        None => return Err(ProveError::AssignmentMissing),
        Some(x) => x,
    };
    let m = cs.constraints.len();
    let n = 1 + cs.public_values.len() + cs.private_values.len();
    assert(scalars_view(w@).len() == w@.len());
    assert(scalars_view(wp@).len() == wp@.len());
    let d = match domain_for(m) {
        None => return Err(ProveError::MalformedKey),
        Some(d) => d,
    };
    if pk.a_query.len() != n || pk.b_g1_query.len() != n || pk.b_g2_query.len() != n
        || pk.l_query.len() != cs.private_values.len() || pk.h_query.len() as u64 != d - 1 {
        return Err(ProveError::MalformedKey);
    }
    let omega = match Scalar::root_of_unity(d) {
        None => return Err(ProveError::MalformedKey),
        Some(x) => x,
    };
    let wi = match omega.inverse() {
        None => return Err(ProveError::MalformedKey),
        Some(x) => x,
    };
    let di = match Scalar::from_u64(d).inverse() {
        None => return Err(ProveError::MalformedKey),
        Some(x) => x,
    };
    let pa = interpolate_exec(&evaluations(cs, 0, d), &wi, &di);
    let pb = interpolate_exec(&evaluations(cs, 1, d), &wi, &di);
    let pc = interpolate_exec(&evaluations(cs, 2, d), &wi, &di);
    assert(witness_polys(*cs) == (scalars_view(pa@), scalars_view(pb@), scalars_view(pc@)));
    let h = match quotient_exec(&pa, &pb, &pc, d) {
        None => return Err(ProveError::InvalidWitness),
        Some(h) => h,
    };
    assert(scalars_view(h@).len() == h@.len());
    let rb = Scalar::random(rng);
    let sb = Scalar::random(rng);
    let aw = match compute_witness_commitment(w.as_slice(), pk.a_query.as_slice()) {
        Err(_) => return Err(ProveError::MalformedKey),
        Ok(x) => x,
    };
    let bw2 = match compute_witness_commitment_g2(w.as_slice(), pk.b_g2_query.as_slice()) {
        Err(_) => return Err(ProveError::MalformedKey),
        Ok(x) => x,
    };
    let bw1 = match compute_witness_commitment(w.as_slice(), pk.b_g1_query.as_slice()) {
        Err(_) => return Err(ProveError::MalformedKey),
        Ok(x) => x,
    };
    let lw = match compute_witness_commitment(wp.as_slice(), pk.l_query.as_slice()) {
        Err(_) => return Err(ProveError::MalformedKey),
        Ok(x) => x,
    };
    let hw = match compute_witness_commitment(h.as_slice(), pk.h_query.as_slice()) {
        Err(_) => return Err(ProveError::MalformedKey),
        Ok(x) => x,
    };
    let a = pk.alpha_g1.add(&aw).add(&pk.delta_g1.mul(&rb));
    let b = pk.beta_g2.add(&bw2).add(&pk.delta_g2.mul(&sb));
    let b1 = pk.beta_g1.add(&bw1).add(&pk.delta_g1.mul(&sb));
    let rs = Scalar::zero().sub(&rb.mul(&sb));
    let c = lw.add(&hw).add(&a.mul(&sb)).add(&b1.mul(&rb)).add(&pk.delta_g1.mul(&rs));
    let out = Proof { a, b, c };
    assert(proof_from(*pk, *cs, rb@, sb@, out));
    Ok(out)
}

/// `generate_proof`, after checking that the public inputs given are those
/// of the assignment.
pub fn create_r1cs_proof(pk: &ProvingKey, public_inputs: &[Scalar], cs: &ConstraintSystem, rng: &mut SecureRng) -> (r: Result<Proof, ProveError>)
    requires
        cs.public_values.len() + cs.private_values.len() < usize::MAX,
    ensures
        public_inputs.len() != cs.public_values.len() ==> r == Err::<Proof, ProveError>(ProveError::DimensionMismatch),
        public_inputs.len() == cs.public_values.len() && !inputs_match(public_inputs@, cs.public_values@) ==> r == Err::<Proof, ProveError>(ProveError::PublicInputMismatch),
        public_inputs.len() == cs.public_values.len() && inputs_match(public_inputs@, cs.public_values@) ==> {
            &&& (r is Ok <==> cs.satisfied() && values_present(*cs) && key_fits(*pk, *cs) && witness_divides(*cs))
            &&& (r == Err::<Proof, ProveError>(ProveError::InvalidWitness) <==> cs.fully_assigned() && (!cs.satisfied() || (
                values_present(*cs) && key_fits(*pk, *cs) && !witness_divides(*cs))))
            &&& (r matches Ok(p) ==> proof_from(
                *pk,
                *cs,
                scalar_draw_of(old(rng).seed(), old(rng).pos()),
                scalar_draw_of(old(rng).seed(), old(rng).pos() + 1),
                p,
            ))
        },
        final(rng).seed() == old(rng).seed(),
        final(rng).pos() == if r is Ok { old(rng).pos() + 2 } else { old(rng).pos() },
{
    if public_inputs.len() != cs.public_values.len() {
        return Err(ProveError::DimensionMismatch);
    }
    let mut i: usize = 0;
    while i < public_inputs.len()
        invariant
            0 <= i <= public_inputs.len(),
            public_inputs.len() == cs.public_values.len(),
            forall|k: int| 0 <= k < i ==> #[trigger] input_matches(public_inputs@[k], cs.public_values@[k]),
        decreases public_inputs.len() - i,
    {
        let ok = match cs.public_values[i] {
            Some(x) => x.equals(&public_inputs[i]),
            None => false,
        };
        if !ok {
            assert(!input_matches(public_inputs@[i as int], cs.public_values@[i as int]));
            return Err(ProveError::PublicInputMismatch);
        }
        i = i + 1;
    }
    generate_proof(pk, cs, rng)
}

} // verus!
