use vstd::prelude::*;
use crate::field::{fadd, finv, fmul, fpow, Scalar};
use crate::group::{g1_generator_enc, g1_mul_of, g2_generator_enc, g2_mul_of, G1, G2};
use crate::qap::{
    domain_for, domain_size, evaluate_at, lagrange_at, lagrange_basis, lagrange_den, qap_at,
    scalars_view, vanishing_at, pow, MAX_DOMAIN,
};
use crate::r1cs::{Constraint, ConstraintSystem};
use crate::rng::{scalar_draw_of, SecureRng};
use crate::field::root_of_unity_of;
use crate::codec::{
    g1s_bytes, g2s_bytes, len_bytes,
    g1_at, g1_list_at, g2_at, g2_list_at, lemma_g1_at_extended, lemma_g1_list_extended,
    lemma_g2_at_extended, lemma_g2_list_extended, put_g1, put_g1s, put_g2, put_g2s, read_g1, read_g1s,
    read_g2, read_g2s,
};
use crate::group::{lemma_g1_len, lemma_g1_view_injective, lemma_g2_len, lemma_g2_view_injective};
use crate::prover::DecodeError;

verus! {

#[derive(Clone, Copy, Debug, PartialEq, Eq, Structural)]
pub enum SetupError {
    /// The circuit has no constraint.
    EmptyCircuit,
    /// A sampled secret made a division by zero: `gamma` or `delta` is zero,
    /// or `tau` is a point of the evaluation domain.
    DivisionByZero,
    /// The field has no evaluation domain large enough for the circuit.
    DomainTooLarge,
}

/// The material the prover needs, derived from the secrets of the setup.
/// Queries are indexed by the full assignment: the constant one, the public
/// variables, then the private ones.
#[derive(Clone, Debug)]
pub struct ProvingKey {
    pub alpha_g1: G1,
    pub beta_g1: G1,
    pub beta_g2: G2,
    pub delta_g1: G1,
    pub delta_g2: G2,
    /// `A_j(tau) G1` for every variable.
    pub a_query: Vec<G1>,
    /// `B_j(tau) G1` for every variable.
    pub b_g1_query: Vec<G1>,
    /// `B_j(tau) G2` for every variable.
    pub b_g2_query: Vec<G2>,
    /// `tau^k Z(tau) / delta G1` for `k` below `d - 1`.
    pub h_query: Vec<G1>,
    /// `(beta A_j(tau) + alpha B_j(tau) + C_j(tau)) / delta G1` for every
    /// private variable.
    pub l_query: Vec<G1>,
}

/// The material the verifier needs.
#[derive(Clone, Debug)]
pub struct VerificationKey {
    pub alpha_g2: G2,
    pub beta_g1: G1,
    pub beta_g2: G2,
    pub gamma_g2: G2,
    pub delta_g1: G1,
    pub delta_g2: G2,
    /// `(beta A_i(tau) + alpha B_i(tau) + C_i(tau)) / gamma G1` for the
    /// constant and every public variable.
    pub ic: Vec<G1>,
}

/// The secrets of one setup: alpha, beta, gamma, delta and tau. They live
/// only inside the setup and are overwritten before it returns.
pub(crate) struct ToxicWaste {
    alpha: Scalar,
    beta: Scalar,
    gamma: Scalar,
    delta: Scalar,
    tau: Scalar,
}

pub open spec fn g1_of(s: int) -> Seq<u8> {
    g1_mul_of(g1_generator_enc(), s)
}

pub open spec fn g2_of(s: int) -> Seq<u8> {
    g2_mul_of(g2_generator_enc(), s)
}

/// The Lagrange polynomials of the constraints' domain points at `tau`.
pub open spec fn lag_values(m: nat, tau: int) -> Seq<int> {
    Seq::new(
        m,
        |i: int| lagrange_at(root_of_unity_of(domain_size(m) as int), domain_size(m), tau, i as nat),
    )
}

/// `beta A_j + alpha B_j + C_j` at the point that `lag` describes.
pub open spec fn combo(cons: Seq<Constraint>, np: nat, j: int, lag: Seq<int>, alpha: int, beta: int) -> int {
    fadd(
        fadd(fmul(beta, qap_at(cons, 0, j, np, lag)), fmul(alpha, qap_at(cons, 1, j, np, lag))),
        qap_at(cons, 2, j, np, lag),
    )
}

/// The proving key that the secrets `(alpha, beta, gamma, delta, tau)` give
/// for the shape of `cs`.
pub open spec fn proving_key_from(cs: ConstraintSystem, t: (int, int, int, int, int), pk: ProvingKey) -> bool {
    let (alpha, beta, gamma, delta, tau) = t;
    let cons = cs.constraints@;
    let np = cs.public_values.len() as nat;
    let nq = cs.private_values.len() as nat;
    let n = 1 + np + nq;
    let d = domain_size(cons.len());
    let lag = lag_values(cons.len(), tau);
    &&& pk.alpha_g1@ == g1_of(alpha)
    &&& pk.beta_g1@ == g1_of(beta)
    &&& pk.beta_g2@ == g2_of(beta)
    &&& pk.delta_g1@ == g1_of(delta)
    &&& pk.delta_g2@ == g2_of(delta)
    &&& pk.a_query.len() == n
    &&& pk.b_g1_query.len() == n
    &&& pk.b_g2_query.len() == n
    &&& forall|j: int| 0 <= j < n ==> (#[trigger] pk.a_query@[j])@ == g1_of(qap_at(cons, 0, j, np, lag))
    &&& forall|j: int| 0 <= j < n ==> (#[trigger] pk.b_g1_query@[j])@ == g1_of(qap_at(cons, 1, j, np, lag))
    &&& forall|j: int| 0 <= j < n ==> (#[trigger] pk.b_g2_query@[j])@ == g2_of(qap_at(cons, 1, j, np, lag))
    &&& pk.h_query.len() == d - 1
    &&& forall|k: int|
        0 <= k < d - 1 ==> (#[trigger] pk.h_query@[k])@ == g1_of(
            fmul(fmul(fpow(tau, k as nat), vanishing_at(tau, d)), finv(delta)),
        )
    &&& pk.l_query.len() == nq
    &&& forall|q: int|
        0 <= q < nq ==> (#[trigger] pk.l_query@[q])@ == g1_of(
            fmul(combo(cons, np, 1 + np + q, lag, alpha, beta), finv(delta)),
        )
}

/// The verification key that the secrets give for the shape of `cs`.
pub open spec fn verification_key_from(cs: ConstraintSystem, t: (int, int, int, int, int), vk: VerificationKey) -> bool {
    let (alpha, beta, gamma, delta, tau) = t;
    let cons = cs.constraints@;
    let np = cs.public_values.len() as nat;
    let lag = lag_values(cons.len(), tau);
    &&& vk.alpha_g2@ == g2_of(alpha)
    &&& vk.beta_g1@ == g1_of(beta)
    &&& vk.beta_g2@ == g2_of(beta)
    &&& vk.gamma_g2@ == g2_of(gamma)
    &&& vk.delta_g1@ == g1_of(delta)
    &&& vk.delta_g2@ == g2_of(delta)
    &&& vk.ic.len() == np + 1
    &&& forall|i: int|
        0 <= i <= np ==> (#[trigger] vk.ic@[i])@ == g1_of(
            fmul(combo(cons, np, i, lag, alpha, beta), finv(gamma)),
        )
}

/// The secrets from which a setup can derive keys.
pub open spec fn usable_secrets(m: nat, t: (int, int, int, int, int)) -> bool {
    let d = domain_size(m);
    let omega = root_of_unity_of(d as int);
    &&& t.2 != 0
    &&& t.3 != 0
    &&& forall|i: int| 0 <= i < m ==> #[trigger] lagrange_den(omega, d, t.4, i as nat) != 0
}

/// `new_pk` and `new_vk` are `pk` and `vk` with delta multiplied by `s`,
/// a nonzero scalar.
pub open spec fn rescaled_by(pk: ProvingKey, vk: VerificationKey, new_pk: ProvingKey, new_vk: VerificationKey, s: int) -> bool {
    &&& s != 0
    &&& new_pk.delta_g1@ == g1_mul_of(pk.delta_g1@, s)
    &&& new_pk.delta_g2@ == g2_mul_of(pk.delta_g2@, s)
    &&& new_vk.delta_g1@ == g1_mul_of(vk.delta_g1@, s)
    &&& new_vk.delta_g2@ == g2_mul_of(vk.delta_g2@, s)
    &&& new_pk.h_query.len() == pk.h_query.len()
    &&& forall|k: int| 0 <= k < pk.h_query.len() ==> (#[trigger] new_pk.h_query@[k])@ == g1_mul_of(pk.h_query@[k]@, finv(s))
    &&& new_pk.l_query.len() == pk.l_query.len()
    &&& forall|k: int| 0 <= k < pk.l_query.len() ==> (#[trigger] new_pk.l_query@[k])@ == g1_mul_of(pk.l_query@[k]@, finv(s))
    &&& new_pk.alpha_g1 == pk.alpha_g1
    &&& new_pk.beta_g1 == pk.beta_g1
    &&& new_pk.beta_g2 == pk.beta_g2
    &&& new_pk.a_query == pk.a_query
    &&& new_pk.b_g1_query == pk.b_g1_query
    &&& new_pk.b_g2_query == pk.b_g2_query
    &&& new_vk.alpha_g2 == vk.alpha_g2
    &&& new_vk.beta_g1 == vk.beta_g1
    &&& new_vk.beta_g2 == vk.beta_g2
    &&& new_vk.gamma_g2 == vk.gamma_g2
    &&& new_vk.ic == vk.ic
}

impl ToxicWaste {
    pub(crate) closed spec fn secrets(&self) -> (int, int, int, int, int) {
        (self.alpha@, self.beta@, self.gamma@, self.delta@, self.tau@)
    }

    /// Overwrites every secret with zero.
    pub(crate) fn destroy(&mut self)
        ensures
            final(self).secrets() == (0int, 0int, 0int, 0int, 0int),
    {
        self.alpha = Scalar::zero();
        self.beta = Scalar::zero();
        self.gamma = Scalar::zero();
        self.delta = Scalar::zero();
        self.tau = Scalar::zero();
    }
}

/// The next five scalars of a generator keyed by `seed` that has drawn
/// `pos` scalars: alpha, beta, gamma, delta and tau in that order.
pub open spec fn drawn_secrets(seed: Seq<u8>, pos: int) -> (int, int, int, int, int) {
    (
        scalar_draw_of(seed, pos),
        scalar_draw_of(seed, pos + 1),
        scalar_draw_of(seed, pos + 2),
        scalar_draw_of(seed, pos + 3),
        scalar_draw_of(seed, pos + 4),
    )
}

/// Samples the five secrets of a setup from `rng`: its next five draws.
pub(crate) fn generate_toxic_waste(rng: &mut SecureRng) -> (r: ToxicWaste)
    ensures
        r.secrets() == drawn_secrets(old(rng).seed(), old(rng).pos()),
        final(rng).seed() == old(rng).seed(),
        final(rng).pos() == old(rng).pos() + 5,
{
    let alpha = Scalar::random(rng);
    let beta = Scalar::random(rng);
    let gamma = Scalar::random(rng);
    let delta = Scalar::random(rng);
    let tau = Scalar::random(rng);
    ToxicWaste { alpha, beta, gamma, delta, tau }
}

/// Derives the keys for the shape of `cs` from the given secrets.
fn derive_keys(cs: &ConstraintSystem, tw: &ToxicWaste) -> (r: Result<(ProvingKey, VerificationKey), SetupError>)
    requires
        cs.public_values.len() + cs.private_values.len() < usize::MAX,
    ensures
        r == Err::<(ProvingKey, VerificationKey), SetupError>(SetupError::EmptyCircuit) <==> cs.constraints.len() == 0,
        r == Err::<(ProvingKey, VerificationKey), SetupError>(SetupError::DomainTooLarge) <==> domain_size(cs.constraints.len() as nat) > MAX_DOMAIN,
        r == Err::<(ProvingKey, VerificationKey), SetupError>(SetupError::DivisionByZero) <==> (cs.constraints.len() > 0
            && domain_size(cs.constraints.len() as nat) <= MAX_DOMAIN
            && !usable_secrets(cs.constraints.len() as nat, tw.secrets())),
        r matches Ok((pk, vk)) ==> proving_key_from(*cs, tw.secrets(), pk) && verification_key_from(*cs, tw.secrets(), vk),
{
    let m = cs.constraints.len();
    if m == 0 {
        return Err(SetupError::EmptyCircuit);
    }
    let d = match domain_for(m) {
        None => return Err(SetupError::DomainTooLarge),
        Some(d) => d,
    };
    let omega = match Scalar::root_of_unity(d) {
        None => return Err(SetupError::DomainTooLarge),
        Some(w) => w,
    };
    let ginv = match tw.gamma.inverse() {
        None => return Err(SetupError::DivisionByZero),
        Some(x) => x,
    };
    let dinv = match tw.delta.inverse() {
        None => return Err(SetupError::DivisionByZero),
        Some(x) => x,
    };
    let lag = match lagrange_basis(&omega, d, &tw.tau, m) {
        None => {
            proof {
                let i = choose|i: int|
                    0 <= i < m && #[trigger] lagrange_den(omega@, d as nat, tw.tau@, i as nat) == 0;
                assert(lagrange_den(root_of_unity_of(domain_size(m as nat) as int), domain_size(m as nat), tw.secrets().4, i as nat) == 0);
            }
            return Err(SetupError::DivisionByZero);
        },
        Some(l) => l,
    };
    let ghost lagv = lag_values(m as nat, tw.tau@);
    assert(scalars_view(lag@) =~= lagv);
    let g1 = G1::generator();
    let g2 = G2::generator();
    let np = cs.public_values.len();
    let nq = cs.private_values.len();
    let n = 1 + np + nq;
    let ghost cons = cs.constraints@;
    let mut a_query: Vec<G1> = Vec::new();
    let mut b_g1_query: Vec<G1> = Vec::new();
    let mut b_g2_query: Vec<G2> = Vec::new();
    let mut l_query: Vec<G1> = Vec::new();
    let mut ic: Vec<G1> = Vec::new();
    let mut j: usize = 0;
    while j < n
        invariant
            n == 1 + np + nq,
            np == cs.public_values.len(),
            nq == cs.private_values.len(),
            cons == cs.constraints@,
            m == cs.constraints.len(),
            lag.len() == m,
            scalars_view(lag@) == lagv,
            g1@ == g1_generator_enc(),
            g2@ == g2_generator_enc(),
            ginv@ == finv(tw.gamma@),
            dinv@ == finv(tw.delta@),
            0 <= j <= n,
            a_query.len() == j,
            b_g1_query.len() == j,
            b_g2_query.len() == j,
            ic.len() == if j <= np + 1 { j as int } else { np + 1 },
            l_query.len() == if j <= np + 1 { 0 } else { j - np - 1 },
            forall|k: int| 0 <= k < j ==> (#[trigger] a_query@[k])@ == g1_of(qap_at(cons, 0, k, np as nat, lagv)),
            forall|k: int| 0 <= k < j ==> (#[trigger] b_g1_query@[k])@ == g1_of(qap_at(cons, 1, k, np as nat, lagv)),
            forall|k: int| 0 <= k < j ==> (#[trigger] b_g2_query@[k])@ == g2_of(qap_at(cons, 1, k, np as nat, lagv)),
            forall|k: int| 0 <= k < ic.len() ==> (#[trigger] ic@[k])@ == g1_of(
                fmul(combo(cons, np as nat, k, lagv, tw.alpha@, tw.beta@), finv(tw.gamma@)),
            ),
            forall|q: int| 0 <= q < l_query.len() ==> (#[trigger] l_query@[q])@ == g1_of(
                fmul(combo(cons, np as nat, 1 + np + q, lagv, tw.alpha@, tw.beta@), finv(tw.delta@)),
            ),
        decreases n - j,
    {
        let u = evaluate_at(&cs.constraints, 0, j, np, &lag);
        let v = evaluate_at(&cs.constraints, 1, j, np, &lag);
        let w = evaluate_at(&cs.constraints, 2, j, np, &lag);
        a_query.push(g1.mul(&u));
        b_g1_query.push(g1.mul(&v));
        b_g2_query.push(g2.mul(&v));
        let c = tw.beta.mul(&u).add(&tw.alpha.mul(&v)).add(&w);
        if j <= np {
            ic.push(g1.mul(&c.mul(&ginv)));
        } else {
            l_query.push(g1.mul(&c.mul(&dinv)));
        }
        j = j + 1;
    }
    let z = pow(&tw.tau, d).sub(&Scalar::one());
    let mut h_query: Vec<G1> = Vec::new();
    let mut t = Scalar::one();
    let mut k: u64 = 0;
    while k + 1 < d
        invariant
            1 <= d <= MAX_DOMAIN,
            k < d,
            h_query.len() == k,
            t@ == fpow(tw.tau@, k as nat),
            z@ == vanishing_at(tw.tau@, d as nat),
            dinv@ == finv(tw.delta@),
            g1@ == g1_generator_enc(),
            forall|i: int| 0 <= i < k ==> (#[trigger] h_query@[i])@ == g1_of(
                fmul(fmul(fpow(tw.tau@, i as nat), vanishing_at(tw.tau@, d as nat)), finv(tw.delta@)),
            ),
        decreases d - k,
    {
        h_query.push(g1.mul(&t.mul(&z).mul(&dinv)));
        t = t.mul(&tw.tau);
        k = k + 1;
    }
    let pk = ProvingKey {
        alpha_g1: g1.mul(&tw.alpha),
        beta_g1: g1.mul(&tw.beta),
        beta_g2: g2.mul(&tw.beta),
        delta_g1: g1.mul(&tw.delta),
        delta_g2: g2.mul(&tw.delta),
        a_query,
        b_g1_query,
        b_g2_query,
        h_query,
        l_query,
    };
    let vk = VerificationKey {
        alpha_g2: g2.mul(&tw.alpha),
        beta_g1: g1.mul(&tw.beta),
        beta_g2: g2.mul(&tw.beta),
        gamma_g2: g2.mul(&tw.gamma),
        delta_g1: g1.mul(&tw.delta),
        delta_g2: g2.mul(&tw.delta),
        ic,
    };
    Ok((pk, vk))
}

/// Runs the trusted setup for the shape of `cs`: samples the secrets from
/// `rng`, derives both keys, and overwrites the secrets before returning.
pub fn setup_phase1(cs: &ConstraintSystem, rng: &mut SecureRng) -> (r: Result<(ProvingKey, VerificationKey), SetupError>)
    requires
        cs.public_values.len() + cs.private_values.len() < usize::MAX,
    ensures
        ({
            let m = cs.constraints.len() as nat;
            let t = drawn_secrets(old(rng).seed(), old(rng).pos());
            &&& r == Err::<(ProvingKey, VerificationKey), SetupError>(SetupError::EmptyCircuit) <==> m == 0
            &&& r == Err::<(ProvingKey, VerificationKey), SetupError>(SetupError::DomainTooLarge) <==> domain_size(m) > MAX_DOMAIN
            &&& r == Err::<(ProvingKey, VerificationKey), SetupError>(SetupError::DivisionByZero) <==> (m > 0
                && domain_size(m) <= MAX_DOMAIN && !usable_secrets(m, t))
            &&& r matches Ok((pk, vk)) ==> proving_key_from(*cs, t, pk) && verification_key_from(*cs, t, vk)
            &&& final(rng).seed() == old(rng).seed()
            &&& final(rng).pos() == if m == 0 { old(rng).pos() } else { old(rng).pos() + 5 }
        }),
{
    if cs.constraints.len() == 0 {
        return Err(SetupError::EmptyCircuit);
    }
    let mut tw = generate_toxic_waste(rng);
    let r = derive_keys(cs, &tw);
    tw.destroy();
    r
}

/// Rescales delta by `s`: the delta elements are multiplied by `s` and
/// the queries divided by delta are divided by `s`. A zero `s` leaves the
/// keys unchanged and is refused.
pub fn rescale_delta(pk: &mut ProvingKey, vk: &mut VerificationKey, s: &Scalar) -> (r: Result<(), SetupError>)
    ensures
        r is Err <==> s@ == 0,
        r is Err ==> r == Err::<(), SetupError>(SetupError::DivisionByZero) && *final(pk) == *old(pk) && *final(vk) == *old(vk),
        r is Ok ==> rescaled_by(*old(pk), *old(vk), *final(pk), *final(vk), s@),
{
    let inv = match s.inverse() {
        None => return Err(SetupError::DivisionByZero),
        Some(x) => x,
    };
    let mut h: Vec<G1> = Vec::new();
    let mut k: usize = 0;
    while k < pk.h_query.len()
        invariant
            0 <= k <= pk.h_query.len(),
            h.len() == k,
            forall|i: int| 0 <= i < k ==> (#[trigger] h@[i])@ == g1_mul_of(pk.h_query@[i]@, inv@),
        decreases pk.h_query.len() - k,
    {
        h.push(pk.h_query[k].mul(&inv));
        k = k + 1;
    }
    let mut l: Vec<G1> = Vec::new();
    let mut k: usize = 0;
    while k < pk.l_query.len()
        invariant
            0 <= k <= pk.l_query.len(),
            l.len() == k,
            forall|i: int| 0 <= i < k ==> (#[trigger] l@[i])@ == g1_mul_of(pk.l_query@[i]@, inv@),
        decreases pk.l_query.len() - k,
    {
        l.push(pk.l_query[k].mul(&inv));
        k = k + 1;
    }
    pk.delta_g1 = pk.delta_g1.mul(s);
    pk.delta_g2 = pk.delta_g2.mul(s);
    pk.h_query = h;
    pk.l_query = l;
    vk.delta_g1 = vk.delta_g1.mul(s);
    vk.delta_g2 = vk.delta_g2.mul(s);
    assert(rescaled_by(*old(pk), *old(vk), *pk, *vk, s@));
    Ok(())
}

/// A second contribution to the setup: rescales delta by the next draw of
/// `rng` (see `rescale_delta`).
pub fn setup_phase2(pk: &mut ProvingKey, vk: &mut VerificationKey, rng: &mut SecureRng) -> (r: Result<(), SetupError>)
    ensures
        ({
            let s = scalar_draw_of(old(rng).seed(), old(rng).pos());
            &&& r is Err <==> s == 0
            &&& r is Err ==> r == Err::<(), SetupError>(SetupError::DivisionByZero) && *final(pk) == *old(pk) && *final(vk) == *old(vk)
            &&& r is Ok ==> rescaled_by(*old(pk), *old(vk), *final(pk), *final(vk), s)
            &&& final(rng).seed() == old(rng).seed()
            &&& final(rng).pos() == old(rng).pos() + 1
        }),
{
    let s = Scalar::random(rng);
    rescale_delta(pk, vk, &s)
}

/// Two second contributions on the same keys with the same secret, as two
/// generators in the same state draw it, give the same keys.
pub proof fn lemma_phase2_deterministic(
    pk: ProvingKey,
    vk: VerificationKey,
    s: int,
    pk1: ProvingKey,
    vk1: VerificationKey,
    pk2: ProvingKey,
    vk2: VerificationKey,
)
    requires
        rescaled_by(pk, vk, pk1, vk1, s),
        rescaled_by(pk, vk, pk2, vk2, s),
    ensures
        pk1.delta_g1 == pk2.delta_g1,
        pk1.delta_g2 == pk2.delta_g2,
        pk1.h_query@ == pk2.h_query@,
        pk1.l_query@ == pk2.l_query@,
        vk1.delta_g1 == vk2.delta_g1,
        vk1.delta_g2 == vk2.delta_g2,
        pk1.alpha_g1 == pk2.alpha_g1,
        pk1.beta_g1 == pk2.beta_g1,
        pk1.beta_g2 == pk2.beta_g2,
        pk1.a_query == pk2.a_query,
        pk1.b_g1_query == pk2.b_g1_query,
        pk1.b_g2_query == pk2.b_g2_query,
        vk1.alpha_g2 == vk2.alpha_g2,
        vk1.beta_g1 == vk2.beta_g1,
        vk1.beta_g2 == vk2.beta_g2,
        vk1.gamma_g2 == vk2.gamma_g2,
        vk1.ic == vk2.ic,
{
    lemma_g1_view_injective(pk1.delta_g1, pk2.delta_g1);
    lemma_g2_view_injective(pk1.delta_g2, pk2.delta_g2);
    lemma_g1_view_injective(vk1.delta_g1, vk2.delta_g1);
    lemma_g2_view_injective(vk1.delta_g2, vk2.delta_g2);
    assert forall|j: int| 0 <= j < pk1.h_query.len() implies pk1.h_query@[j] == pk2.h_query@[j] by {
        lemma_g1_view_injective(pk1.h_query@[j], pk2.h_query@[j]);
    }
    assert forall|j: int| 0 <= j < pk1.l_query.len() implies pk1.l_query@[j] == pk2.l_query@[j] by {
        lemma_g1_view_injective(pk1.l_query@[j], pk2.l_query@[j]);
    }
    assert(pk1.h_query@ =~= pk2.h_query@);
    assert(pk1.l_query@ =~= pk2.l_query@);
}

/// Two setups of one shape from generators in the same state give the
/// same keys.
pub proof fn lemma_setup_deterministic(
    cs: ConstraintSystem,
    t: (int, int, int, int, int),
    pk1: ProvingKey,
    vk1: VerificationKey,
    pk2: ProvingKey,
    vk2: VerificationKey,
)
    requires
        proving_key_from(cs, t, pk1),
        verification_key_from(cs, t, vk1),
        proving_key_from(cs, t, pk2),
        verification_key_from(cs, t, vk2),
    ensures
        pk1.alpha_g1 == pk2.alpha_g1,
        pk1.beta_g1 == pk2.beta_g1,
        pk1.beta_g2 == pk2.beta_g2,
        pk1.delta_g1 == pk2.delta_g1,
        pk1.delta_g2 == pk2.delta_g2,
        pk1.a_query@ == pk2.a_query@,
        pk1.b_g1_query@ == pk2.b_g1_query@,
        pk1.b_g2_query@ == pk2.b_g2_query@,
        pk1.h_query@ == pk2.h_query@,
        pk1.l_query@ == pk2.l_query@,
        vk1.alpha_g2 == vk2.alpha_g2,
        vk1.beta_g1 == vk2.beta_g1,
        vk1.beta_g2 == vk2.beta_g2,
        vk1.gamma_g2 == vk2.gamma_g2,
        vk1.delta_g1 == vk2.delta_g1,
        vk1.delta_g2 == vk2.delta_g2,
        vk1.ic@ == vk2.ic@,
{
    lemma_g1_view_injective(pk1.alpha_g1, pk2.alpha_g1);
    lemma_g1_view_injective(pk1.beta_g1, pk2.beta_g1);
    lemma_g2_view_injective(pk1.beta_g2, pk2.beta_g2);
    lemma_g1_view_injective(pk1.delta_g1, pk2.delta_g1);
    lemma_g2_view_injective(pk1.delta_g2, pk2.delta_g2);
    lemma_g2_view_injective(vk1.alpha_g2, vk2.alpha_g2);
    lemma_g1_view_injective(vk1.beta_g1, vk2.beta_g1);
    lemma_g2_view_injective(vk1.beta_g2, vk2.beta_g2);
    lemma_g2_view_injective(vk1.gamma_g2, vk2.gamma_g2);
    lemma_g1_view_injective(vk1.delta_g1, vk2.delta_g1);
    lemma_g2_view_injective(vk1.delta_g2, vk2.delta_g2);
    assert forall|j: int| 0 <= j < pk1.a_query.len() implies pk1.a_query@[j] == pk2.a_query@[j] by {
        lemma_g1_view_injective(pk1.a_query@[j], pk2.a_query@[j]);
    }
    assert forall|j: int| 0 <= j < pk1.b_g1_query.len() implies pk1.b_g1_query@[j] == pk2.b_g1_query@[j] by {
        lemma_g1_view_injective(pk1.b_g1_query@[j], pk2.b_g1_query@[j]);
    }
    assert forall|j: int| 0 <= j < pk1.b_g2_query.len() implies pk1.b_g2_query@[j] == pk2.b_g2_query@[j] by {
        lemma_g2_view_injective(pk1.b_g2_query@[j], pk2.b_g2_query@[j]);
    }
    assert forall|j: int| 0 <= j < pk1.h_query.len() implies pk1.h_query@[j] == pk2.h_query@[j] by {
        lemma_g1_view_injective(pk1.h_query@[j], pk2.h_query@[j]);
    }
    assert forall|j: int| 0 <= j < pk1.l_query.len() implies pk1.l_query@[j] == pk2.l_query@[j] by {
        lemma_g1_view_injective(pk1.l_query@[j], pk2.l_query@[j]);
    }
    assert forall|j: int| 0 <= j < vk1.ic.len() implies vk1.ic@[j] == vk2.ic@[j] by {
        lemma_g1_view_injective(vk1.ic@[j], vk2.ic@[j]);
    }
    assert(pk1.a_query@ =~= pk2.a_query@);
    assert(pk1.b_g1_query@ =~= pk2.b_g1_query@);
    assert(pk1.b_g2_query@ =~= pk2.b_g2_query@);
    assert(pk1.h_query@ =~= pk2.h_query@);
    assert(pk1.l_query@ =~= pk2.l_query@);
    assert(vk1.ic@ =~= vk2.ic@);
}

/// The encoding of `vk`: its six points compressed, then `ic` with its
/// length on eight bytes.
pub open spec fn vk_bytes(vk: VerificationKey) -> Seq<u8> {
    vk.alpha_g2@ + vk.beta_g1@ + vk.beta_g2@ + vk.gamma_g2@ + vk.delta_g1@ + vk.delta_g2@ + len_bytes(
        vk.ic.len() as u64,
    ) + g1s_bytes(vk.ic@)
}

/// The encoding of `pk`: its five points compressed, then the five
/// queries, each with its length on eight bytes.
pub open spec fn pk_bytes(pk: ProvingKey) -> Seq<u8> {
    pk.alpha_g1@ + pk.beta_g1@ + pk.beta_g2@ + pk.delta_g1@ + pk.delta_g2@
        + len_bytes(pk.a_query.len() as u64) + g1s_bytes(pk.a_query@)
        + len_bytes(pk.b_g1_query.len() as u64) + g1s_bytes(pk.b_g1_query@)
        + len_bytes(pk.b_g2_query.len() as u64) + g2s_bytes(pk.b_g2_query@)
        + len_bytes(pk.h_query.len() as u64) + g1s_bytes(pk.h_query@)
        + len_bytes(pk.l_query.len() as u64) + g1s_bytes(pk.l_query@)
}

/// `b` encodes `vk`: `alpha_g2`, `beta_g1`, `beta_g2`, `gamma_g2`,
/// `delta_g1`, `delta_g2` compressed, then `ic` with its length.
pub open spec fn vk_decodes_as(b: Seq<u8>, vk: VerificationKey) -> bool {
    &&& g2_at(b, 0, vk.alpha_g2)
    &&& g1_at(b, 96, vk.beta_g1)
    &&& g2_at(b, 144, vk.beta_g2)
    &&& g2_at(b, 240, vk.gamma_g2)
    &&& g1_at(b, 336, vk.delta_g1)
    &&& g2_at(b, 384, vk.delta_g2)
    &&& g1_list_at(b, 480, vk.ic@)
    &&& b.len() == 488 + 48 * vk.ic.len()
}

/// `b` encodes `pk`: `alpha_g1`, `beta_g1`, `beta_g2`, `delta_g1`,
/// `delta_g2` compressed, then the five queries, each with its length.
pub open spec fn pk_decodes_as(b: Seq<u8>, pk: ProvingKey) -> bool {
    let p1 = 344 + 48 * pk.a_query.len();
    let p2 = p1 + 8 + 48 * pk.b_g1_query.len();
    let p3 = p2 + 8 + 96 * pk.b_g2_query.len();
    let p4 = p3 + 8 + 48 * pk.h_query.len();
    &&& g1_at(b, 0, pk.alpha_g1)
    &&& g1_at(b, 48, pk.beta_g1)
    &&& g2_at(b, 96, pk.beta_g2)
    &&& g1_at(b, 192, pk.delta_g1)
    &&& g2_at(b, 240, pk.delta_g2)
    &&& g1_list_at(b, 336, pk.a_query@)
    &&& g1_list_at(b, p1, pk.b_g1_query@)
    &&& g2_list_at(b, p2, pk.b_g2_query@)
    &&& g1_list_at(b, p3, pk.h_query@)
    &&& g1_list_at(b, p4, pk.l_query@)
    &&& b.len() == p4 + 8 + 48 * pk.l_query.len()
}

impl VerificationKey {
    /// The canonical encoding, which decodes back to this key.
    pub fn serialize(&self) -> (r: Vec<u8>)
        ensures
            r@ == vk_bytes(*self),
            vk_decodes_as(r@, *self),
    {
        proof {
            lemma_g2_len(self.alpha_g2);
            lemma_g1_len(self.beta_g1);
            lemma_g2_len(self.beta_g2);
            lemma_g2_len(self.gamma_g2);
            lemma_g1_len(self.delta_g1);
            lemma_g2_len(self.delta_g2);
        }
        let mut out: Vec<u8> = Vec::new();
        put_g2(&mut out, &self.alpha_g2);
        let ghost s1 = out@;
        put_g1(&mut out, &self.beta_g1);
        let ghost s2 = out@;
        put_g2(&mut out, &self.beta_g2);
        let ghost s3 = out@;
        put_g2(&mut out, &self.gamma_g2);
        let ghost s4 = out@;
        put_g1(&mut out, &self.delta_g1);
        let ghost s5 = out@;
        put_g2(&mut out, &self.delta_g2);
        let ghost s6 = out@;
        put_g1s(&mut out, &self.ic);
        proof {
            assert(out@.subrange(0, s1.len() as int) =~= s1);
            assert(out@.subrange(0, s2.len() as int) =~= s2);
            assert(out@.subrange(0, s3.len() as int) =~= s3);
            assert(out@.subrange(0, s4.len() as int) =~= s4);
            assert(out@.subrange(0, s5.len() as int) =~= s5);
            lemma_g2_at_extended(s1, out@, 0, self.alpha_g2);
            lemma_g1_at_extended(s2, out@, 96, self.beta_g1);
            lemma_g2_at_extended(s3, out@, 144, self.beta_g2);
            lemma_g2_at_extended(s4, out@, 240, self.gamma_g2);
            lemma_g1_at_extended(s5, out@, 336, self.delta_g1);
            lemma_g2_at_extended(s6, out@, 384, self.delta_g2);
        }
        assert(out@ =~= vk_bytes(*self));
        out
    }

    /// Reads a key, checking every point; fails on bytes that encode no
    /// key.
    pub fn deserialize(data: &[u8]) -> (r: Result<VerificationKey, DecodeError>)
        ensures
            r matches Ok(vk) ==> vk_decodes_as(data@, vk),
            (exists|vk: VerificationKey| vk_decodes_as(data@, vk)) <==> r is Ok,
    {
        let ghost some = exists|vk: VerificationKey| vk_decodes_as(data@, vk);
        let ghost v = choose|vk: VerificationKey| vk_decodes_as(data@, vk);
        assert(some ==> vk_decodes_as(data@, v));
        let alpha_g2 = match read_g2(data, 0) {
            Ok(x) => x,
            Err(e) => {
                assert(some ==> g2_at(data@, 0, v.alpha_g2));
                return Err(e);
            },
        };
        let beta_g1 = match read_g1(data, 96) {
            Ok(x) => x,
            Err(e) => {
                assert(some ==> g1_at(data@, 96, v.beta_g1));
                return Err(e);
            },
        };
        let beta_g2 = match read_g2(data, 144) {
            Ok(x) => x,
            Err(e) => {
                assert(some ==> g2_at(data@, 144, v.beta_g2));
                return Err(e);
            },
        };
        let gamma_g2 = match read_g2(data, 240) {
            Ok(x) => x,
            Err(e) => {
                assert(some ==> g2_at(data@, 240, v.gamma_g2));
                return Err(e);
            },
        };
        let delta_g1 = match read_g1(data, 336) {
            Ok(x) => x,
            Err(e) => {
                assert(some ==> g1_at(data@, 336, v.delta_g1));
                return Err(e);
            },
        };
        let delta_g2 = match read_g2(data, 384) {
            Ok(x) => x,
            Err(e) => {
                assert(some ==> g2_at(data@, 384, v.delta_g2));
                return Err(e);
            },
        };
        let (ic, next) = match read_g1s(data, 480) {
            Ok(x) => x,
            Err(e) => {
                assert(some ==> g1_list_at(data@, 480, v.ic@));
                return Err(e);
            },
        };
        if next != data.len() {
            return Err(DecodeError::MalformedKey);
        }
        let vk = VerificationKey { alpha_g2, beta_g1, beta_g2, gamma_g2, delta_g1, delta_g2, ic };
        assert(vk_decodes_as(data@, vk));
        Ok(vk)
    }
}

impl ProvingKey {
    /// The canonical encoding, which decodes back to this key.
    #[verifier::rlimit(100)]
    #[verifier::spinoff_prover]
    pub fn serialize(&self) -> (r: Vec<u8>)
        ensures
            r@ == pk_bytes(*self),
            pk_decodes_as(r@, *self),
    {
        proof {
            lemma_g1_len(self.alpha_g1);
            lemma_g1_len(self.beta_g1);
            lemma_g2_len(self.beta_g2);
            lemma_g1_len(self.delta_g1);
            lemma_g2_len(self.delta_g2);
        }
        let mut out: Vec<u8> = Vec::new();
        put_g1(&mut out, &self.alpha_g1);
        let ghost s1 = out@;
        put_g1(&mut out, &self.beta_g1);
        let ghost s2 = out@;
        assert(s2.subrange(0, s1.len() as int) =~= s1);
        put_g2(&mut out, &self.beta_g2);
        let ghost s3 = out@;
        assert(s3.subrange(0, s2.len() as int) =~= s2);
        put_g1(&mut out, &self.delta_g1);
        let ghost s4 = out@;
        assert(s4.subrange(0, s3.len() as int) =~= s3);
        put_g2(&mut out, &self.delta_g2);
        let ghost s5 = out@;
        assert(s5.subrange(0, s4.len() as int) =~= s4);
        put_g1s(&mut out, &self.a_query);
        let ghost s6 = out@;
        assert(s6.subrange(0, s5.len() as int) =~= s5);
        put_g1s(&mut out, &self.b_g1_query);
        let ghost s7 = out@;
        assert(s7.subrange(0, s6.len() as int) =~= s6);
        put_g2s(&mut out, &self.b_g2_query);
        let ghost s8 = out@;
        assert(s8.subrange(0, s7.len() as int) =~= s7);
        put_g1s(&mut out, &self.h_query);
        let ghost s9 = out@;
        assert(s9.subrange(0, s8.len() as int) =~= s8);
        put_g1s(&mut out, &self.l_query);
        proof {
            lemma_prefix_trans(s8, s9, out@);
            lemma_prefix_trans(s7, s8, out@);
            lemma_prefix_trans(s6, s7, out@);
            lemma_prefix_trans(s5, s6, out@);
            lemma_prefix_trans(s4, s5, out@);
            lemma_prefix_trans(s3, s4, out@);
            lemma_prefix_trans(s2, s3, out@);
            lemma_prefix_trans(s1, s2, out@);
            lemma_g1_at_extended(s1, out@, 0, self.alpha_g1);
            lemma_g1_at_extended(s2, out@, 48, self.beta_g1);
            lemma_g2_at_extended(s3, out@, 96, self.beta_g2);
            lemma_g1_at_extended(s4, out@, 192, self.delta_g1);
            lemma_g2_at_extended(s5, out@, 240, self.delta_g2);
            lemma_g1_list_extended(s6, out@, 336, self.a_query@);
            lemma_g1_list_extended(s7, out@, s6.len() as int, self.b_g1_query@);
            lemma_g2_list_extended(s8, out@, s7.len() as int, self.b_g2_query@);
            lemma_g1_list_extended(s9, out@, s8.len() as int, self.h_query@);
        }
        assert(out@ =~= pk_bytes(*self));
        out
    }

    /// Reads a key, checking every point; fails on bytes that encode no
    /// key.
    pub fn deserialize(data: &[u8]) -> (r: Result<ProvingKey, DecodeError>)
        ensures
            r matches Ok(pk) ==> pk_decodes_as(data@, pk),
            (exists|pk: ProvingKey| pk_decodes_as(data@, pk)) <==> r is Ok,
    {
        let ghost some = exists|pk: ProvingKey| pk_decodes_as(data@, pk);
        let ghost v = choose|pk: ProvingKey| pk_decodes_as(data@, pk);
        assert(some ==> pk_decodes_as(data@, v));
        let alpha_g1 = match read_g1(data, 0) {
            Ok(x) => x,
            Err(e) => {
                assert(some ==> g1_at(data@, 0, v.alpha_g1));
                return Err(e);
            },
        };
        let beta_g1 = match read_g1(data, 48) {
            Ok(x) => x,
            Err(e) => {
                assert(some ==> g1_at(data@, 48, v.beta_g1));
                return Err(e);
            },
        };
        let beta_g2 = match read_g2(data, 96) {
            Ok(x) => x,
            Err(e) => {
                assert(some ==> g2_at(data@, 96, v.beta_g2));
                return Err(e);
            },
        };
        let delta_g1 = match read_g1(data, 192) {
            Ok(x) => x,
            Err(e) => {
                assert(some ==> g1_at(data@, 192, v.delta_g1));
                return Err(e);
            },
        };
        let delta_g2 = match read_g2(data, 240) {
            Ok(x) => x,
            Err(e) => {
                assert(some ==> g2_at(data@, 240, v.delta_g2));
                return Err(e);
            },
        };
        let (a_query, p1) = match read_g1s(data, 336) {
            Ok(x) => x,
            Err(e) => {
                assert(some ==> g1_list_at(data@, 336, v.a_query@));
                return Err(e);
            },
        };
        assert(some ==> a_query.len() == v.a_query.len());
        let (b_g1_query, p2) = match read_g1s(data, p1) {
            Ok(x) => x,
            Err(e) => {
                assert(some ==> g1_list_at(data@, p1 as int, v.b_g1_query@));
                return Err(e);
            },
        };
        assert(some ==> b_g1_query.len() == v.b_g1_query.len());
        let (b_g2_query, p3) = match read_g2s(data, p2) {
            Ok(x) => x,
            Err(e) => {
                assert(some ==> g2_list_at(data@, p2 as int, v.b_g2_query@));
                return Err(e);
            },
        };
        assert(some ==> b_g2_query.len() == v.b_g2_query.len());
        let (h_query, p4) = match read_g1s(data, p3) {
            Ok(x) => x,
            Err(e) => {
                assert(some ==> g1_list_at(data@, p3 as int, v.h_query@));
                return Err(e);
            },
        };
        assert(some ==> h_query.len() == v.h_query.len());
        let (l_query, end) = match read_g1s(data, p4) {
            Ok(x) => x,
            Err(e) => {
                assert(some ==> g1_list_at(data@, p4 as int, v.l_query@));
                return Err(e);
            },
        };
        assert(some ==> l_query.len() == v.l_query.len());
        if end != data.len() {
            return Err(DecodeError::MalformedKey);
        }
        let pk = ProvingKey {
            alpha_g1,
            beta_g1,
            beta_g2,
            delta_g1,
            delta_g2,
            a_query,
            b_g1_query,
            b_g2_query,
            h_query,
            l_query,
        };
        assert(pk_decodes_as(data@, pk));
        Ok(pk)
    }
}

proof fn lemma_prefix_trans(a: Seq<u8>, b: Seq<u8>, c: Seq<u8>)
    requires
        a.len() <= b.len() <= c.len(),
        b.subrange(0, a.len() as int) == a,
        c.subrange(0, b.len() as int) == b,
    ensures
        c.subrange(0, a.len() as int) == a,
{
    assert forall|j: int| 0 <= j < a.len() implies c[j] == a[j] by {
        assert(c.subrange(0, b.len() as int)[j] == c[j]);
        assert(b.subrange(0, a.len() as int)[j] == b[j]);
    }
    assert(c.subrange(0, a.len() as int) =~= a);
}

proof fn lemma_g1_lists_agree(b: Seq<u8>, pos: int, ps: Seq<G1>, qs: Seq<G1>)
    requires
        g1_list_at(b, pos, ps),
        g1_list_at(b, pos, qs),
    ensures
        ps == qs,
{
    assert forall|i: int| 0 <= i < ps.len() implies ps[i] == qs[i] by {
        lemma_g1_view_injective(ps[i], qs[i]);
    }
    assert(ps =~= qs);
}

proof fn lemma_g2_lists_agree(b: Seq<u8>, pos: int, ps: Seq<G2>, qs: Seq<G2>)
    requires
        g2_list_at(b, pos, ps),
        g2_list_at(b, pos, qs),
    ensures
        ps == qs,
{
    assert forall|i: int| 0 <= i < ps.len() implies ps[i] == qs[i] by {
        lemma_g2_view_injective(ps[i], qs[i]);
    }
    assert(ps =~= qs);
}

/// Decoding the encoding of a verification key gives that key back: every
/// key that some bytes decode as is the same one.
pub proof fn lemma_vk_round_trip(b: Seq<u8>, v1: VerificationKey, v2: VerificationKey)
    requires
        vk_decodes_as(b, v1),
        vk_decodes_as(b, v2),
    ensures
        v1.alpha_g2 == v2.alpha_g2,
        v1.beta_g1 == v2.beta_g1,
        v1.beta_g2 == v2.beta_g2,
        v1.gamma_g2 == v2.gamma_g2,
        v1.delta_g1 == v2.delta_g1,
        v1.delta_g2 == v2.delta_g2,
        v1.ic@ == v2.ic@,
{
    lemma_g2_view_injective(v1.alpha_g2, v2.alpha_g2);
    lemma_g1_view_injective(v1.beta_g1, v2.beta_g1);
    lemma_g2_view_injective(v1.beta_g2, v2.beta_g2);
    lemma_g2_view_injective(v1.gamma_g2, v2.gamma_g2);
    lemma_g1_view_injective(v1.delta_g1, v2.delta_g1);
    lemma_g2_view_injective(v1.delta_g2, v2.delta_g2);
    lemma_g1_lists_agree(b, 480, v1.ic@, v2.ic@);
}

/// Decoding the encoding of a proving key gives that key back: every key
/// that some bytes decode as is the same one.
pub proof fn lemma_pk_round_trip(b: Seq<u8>, k1: ProvingKey, k2: ProvingKey)
    requires
        pk_decodes_as(b, k1),
        pk_decodes_as(b, k2),
    ensures
        k1.alpha_g1 == k2.alpha_g1,
        k1.beta_g1 == k2.beta_g1,
        k1.beta_g2 == k2.beta_g2,
        k1.delta_g1 == k2.delta_g1,
        k1.delta_g2 == k2.delta_g2,
        k1.a_query@ == k2.a_query@,
        k1.b_g1_query@ == k2.b_g1_query@,
        k1.b_g2_query@ == k2.b_g2_query@,
        k1.h_query@ == k2.h_query@,
        k1.l_query@ == k2.l_query@,
{
    lemma_g1_view_injective(k1.alpha_g1, k2.alpha_g1);
    lemma_g1_view_injective(k1.beta_g1, k2.beta_g1);
    lemma_g2_view_injective(k1.beta_g2, k2.beta_g2);
    lemma_g1_view_injective(k1.delta_g1, k2.delta_g1);
    lemma_g2_view_injective(k1.delta_g2, k2.delta_g2);
    lemma_g1_lists_agree(b, 336, k1.a_query@, k2.a_query@);
    let p1 = 344 + 48 * k1.a_query.len();
    lemma_g1_lists_agree(b, p1, k1.b_g1_query@, k2.b_g1_query@);
    let p2 = p1 + 8 + 48 * k1.b_g1_query.len();
    lemma_g2_lists_agree(b, p2, k1.b_g2_query@, k2.b_g2_query@);
    let p3 = p2 + 8 + 96 * k1.b_g2_query.len();
    lemma_g1_lists_agree(b, p3, k1.h_query@, k2.h_query@);
    let p4 = p3 + 8 + 48 * k1.h_query.len();
    lemma_g1_lists_agree(b, p4, k1.l_query@, k2.l_query@);
}

} // verus!
