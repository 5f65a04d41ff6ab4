use vstd::prelude::*;
use crate::field::Scalar;
use crate::group::{g1_add_of, g1_mul_of, g1_neg_of, multi_pairing_is_one, pairing_product_is_one, G1, G2};
use crate::keygen::VerificationKey;
use crate::prover::Proof;
use crate::qap::scalars_view;

verus! {

#[derive(Clone, Copy, Debug, PartialEq, Eq, Structural)]
pub enum VerifyError {
    /// The number of public inputs is not one less than the length of the
    /// key's commitment vector.
    DimensionMismatch,
}

/// `ic[0] + sum_i x_i ic[i + 1]`, summed in index order.
pub open spec fn input_commitment(ic: Seq<Seq<u8>>, x: Seq<int>) -> Seq<u8>
    decreases x.len(),
{
    if x.len() == 0 {
        ic[0]
    } else {
        g1_add_of(input_commitment(ic, x.drop_last()), g1_mul_of(ic[x.len() as int], x.last()))
    }
}

pub open spec fn ic_views(ic: Seq<G1>) -> Seq<Seq<u8>> {
    ic.map_values(|p: G1| p@)
}

/// The Groth16 equation
/// `e(A, B) = e(beta, alpha) e(IC, gamma) e(C, delta)`, checked as
/// `e(A, B) e(-beta, alpha) e(-IC, gamma) e(-C, delta) = 1`.
pub open spec fn groth16_holds(vk: VerificationKey, x: Seq<int>, proof: Proof) -> bool {
    pairing_product_is_one(
        seq![
            proof.a@,
            g1_neg_of(vk.beta_g1@),
            g1_neg_of(input_commitment(ic_views(vk.ic@), x)),
            g1_neg_of(proof.c@),
        ],
        seq![proof.b@, vk.alpha_g2@, vk.gamma_g2@, vk.delta_g2@],
    )
}

/// The sum of two points of G1.
pub fn affine_add(p1: &G1, p2: &G1) -> (r: G1)
    ensures
        r@ == g1_add_of(p1@, p2@),
{
    p1.add(p2)
}

/// `ic[0] + sum_i x_i ic[i + 1]`; the lengths must agree.
pub fn compute_public_input_commitment(vk_ic: &[G1], public_inputs: &[Scalar]) -> (r: Result<
    G1,
    VerifyError,
>)
    ensures
        r is Err <==> vk_ic.len() != public_inputs.len() + 1,
        r is Err ==> r == Err::<G1, VerifyError>(VerifyError::DimensionMismatch),
        r matches Ok(p) ==> p@ == input_commitment(ic_views(vk_ic@), scalars_view(public_inputs@)),
{
    if vk_ic.len() == 0 || vk_ic.len() - 1 != public_inputs.len() {
        return Err(VerifyError::DimensionMismatch);
    }
    let mut acc = vk_ic[0];
    let mut i: usize = 0;
    while i < public_inputs.len()
        invariant
            0 <= i <= public_inputs.len(),
            vk_ic.len() == public_inputs.len() + 1,
            acc@ == input_commitment(ic_views(vk_ic@), scalars_view(public_inputs@.take(i as int))),
        decreases public_inputs.len() - i,
    {
        assert(scalars_view(public_inputs@.take(i + 1)).drop_last() =~= scalars_view(
            public_inputs@.take(i as int),
        ));
        acc = affine_add(&acc, &vk_ic[i + 1].mul(&public_inputs[i]));
        i = i + 1;
    }
    assert(public_inputs@.take(public_inputs.len() as int) =~= public_inputs@);
    Ok(acc)
}

/// Checks a proof against a verification key and public inputs with one
/// multi-pairing. A proof that does not hold gives `Ok(false)`; only a
/// wrong number of inputs is an error.
pub fn verify_proof(vk: &VerificationKey, public_inputs: &[Scalar], proof: &Proof) -> (r: Result<
    bool,
    VerifyError,
>)
    ensures
        r is Err <==> vk.ic.len() != public_inputs.len() + 1,
        r is Err ==> r == Err::<bool, VerifyError>(VerifyError::DimensionMismatch),
        r matches Ok(b) ==> b == groth16_holds(*vk, scalars_view(public_inputs@), *proof),
{
    let ic = compute_public_input_commitment(vk.ic.as_slice(), public_inputs)?;
    let ps: Vec<G1> = vec![proof.a, vk.beta_g1.neg(), ic.neg(), proof.c.neg()];
    let qs: Vec<G2> = vec![proof.b, vk.alpha_g2, vk.gamma_g2, vk.delta_g2];
    let ok = multi_pairing_is_one(&ps, &qs);
    assert(crate::group::g1_views(ps@) =~= seq![
        proof.a@,
        crate::group::g1_neg_of(vk.beta_g1@),
        g1_neg_of(input_commitment(ic_views(vk.ic@), scalars_view(public_inputs@))),
        g1_neg_of(proof.c@),
    ]);
    assert(crate::group::g2_views(qs@) =~= seq![proof.b@, vk.alpha_g2@, vk.gamma_g2@, vk.delta_g2@]);
    Ok(ok)
}

/// The outcome of a verification together with the inputs it was made on.
#[derive(Clone, Debug)]
pub struct VerificationDetails {
    pub is_valid: bool,
    pub public_inputs: Vec<Scalar>,
}

/// `verify_proof`, reporting the inputs along with the outcome.
pub fn verify_proof_with_details(vk: &VerificationKey, public_inputs: &[Scalar], proof: &Proof) -> (r:
    Result<VerificationDetails, VerifyError>)
    ensures
        r is Err <==> vk.ic.len() != public_inputs.len() + 1,
        r is Err ==> r == Err::<VerificationDetails, VerifyError>(VerifyError::DimensionMismatch),
        r matches Ok(d) ==> d.is_valid == groth16_holds(*vk, scalars_view(public_inputs@), *proof)
            && d.public_inputs@ == public_inputs@,
{
    let is_valid = verify_proof(vk, public_inputs, proof)?;
    let mut inputs: Vec<Scalar> = Vec::new();
    let mut i: usize = 0;
    while i < public_inputs.len()
        invariant
            0 <= i <= public_inputs.len(),
            inputs@ == public_inputs@.take(i as int),
        decreases public_inputs.len() - i,
    {
        inputs.push(public_inputs[i]);
        i = i + 1;
    }
    assert(public_inputs@.take(public_inputs.len() as int) =~= public_inputs@);
    Ok(VerificationDetails { is_valid, public_inputs: inputs })
}

} // verus!
