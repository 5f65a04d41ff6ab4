use grothprotocol::circuit::Circuit;
use grothprotocol::field::Scalar;
use grothprotocol::group::{G1, G2};
use grothprotocol::keygen::{rescale_delta, setup_phase1, setup_phase2, ProvingKey, SetupError, VerificationKey};
use grothprotocol::prover::{
    compute_linear_combination, compute_witness_commitment, create_r1cs_proof, generate_proof,
    DecodeError, Proof, ProveError,
};
use grothprotocol::r1cs::{ConstraintSystem, LinearCombination, SynthesisError, VarKind, Variable};
use grothprotocol::rng::SecureRng;
use grothprotocol::verification::{
    affine_add, compute_public_input_commitment, verify_proof, verify_proof_with_details,
    VerifyError,
};

fn s(v: u64) -> Scalar {
    Scalar::from_u64(v)
}

fn shape() -> ConstraintSystem {
    let mut cs = ConstraintSystem::new_structural();
    let circuit = Circuit { a: None, b: None, c: None };
    circuit.generate_constraints(&mut cs).unwrap();
    cs
}

fn assigned(a: u64, b: u64, c: u64) -> ConstraintSystem {
    let mut cs = ConstraintSystem::new_assigned();
    let circuit = Circuit { a: Some(s(a)), b: Some(s(b)), c: Some(s(c)) };
    circuit.generate_constraints(&mut cs).unwrap();
    cs
}

fn keys(seed: u8) -> (ProvingKey, VerificationKey) {
    let mut rng = SecureRng::from_seed([seed; 32]);
    setup_phase1(&shape(), &mut rng).unwrap()
}

fn vk_bytes(vk: &VerificationKey) -> Vec<u8> {
    let mut out = Vec::new();
    out.extend(vk.alpha_g2.to_bytes());
    out.extend(vk.beta_g1.to_bytes());
    out.extend(vk.beta_g2.to_bytes());
    out.extend(vk.gamma_g2.to_bytes());
    out.extend(vk.delta_g1.to_bytes());
    out.extend(vk.delta_g2.to_bytes());
    for p in &vk.ic {
        out.extend(p.to_bytes());
    }
    out
}

fn pk_bytes(pk: &ProvingKey) -> Vec<u8> {
    let mut out = Vec::new();
    out.extend(pk.alpha_g1.to_bytes());
    out.extend(pk.beta_g1.to_bytes());
    out.extend(pk.beta_g2.to_bytes());
    out.extend(pk.delta_g1.to_bytes());
    out.extend(pk.delta_g2.to_bytes());
    for p in pk.a_query.iter().chain(pk.b_g1_query.iter()).chain(pk.h_query.iter()).chain(pk.l_query.iter()) {
        out.extend(p.to_bytes());
    }
    for q in &pk.b_g2_query {
        out.extend(q.to_bytes());
    }
    out
}

#[test]
fn test_circuit_constraints() {
    let cs = assigned(3, 4, 12);
    assert_eq!(cs.is_satisfied(), Ok(true));
}

#[test]
fn unsatisfied_circuit_reports_false() {
    let cs = assigned(3, 4, 13);
    assert_eq!(cs.is_satisfied(), Ok(false));
}

#[test]
fn structural_system_has_no_values() {
    let cs = shape();
    assert_eq!(cs.num_public(), 1);
    assert_eq!(cs.num_private(), 2);
    assert_eq!(cs.constraints.len(), 1);
    assert!(cs.public_values.iter().all(|v| v.is_none()));
    assert_eq!(cs.is_satisfied(), Err(SynthesisError::AssignmentMissing));
}

#[test]
fn missing_value_in_assigned_mode() {
    let mut cs = ConstraintSystem::new_assigned();
    let circuit = Circuit { a: Some(s(3)), b: None, c: Some(s(12)) };
    assert_eq!(circuit.generate_constraints(&mut cs), Err(SynthesisError::AssignmentMissing));
}

#[test]
fn random_scalars_are_distinct() {
    let mut rng = SecureRng::from_seed([42u8; 32]);
    let a = Scalar::random(&mut rng);
    let b = Scalar::random(&mut rng);
    let c = Scalar::random(&mut rng);
    let d = Scalar::random(&mut rng);
    assert!(!a.equals(&b) && !a.equals(&c) && !a.equals(&d));
    assert!(!b.equals(&c) && !b.equals(&d) && !c.equals(&d));
}

#[test]
fn field_arithmetic() {
    assert!(s(3).mul(&s(4)).equals(&s(12)));
    assert!(s(3).add(&s(4)).equals(&s(7)));
    assert!(s(2).mul(&s(2).inverse().unwrap()).equals(&Scalar::one()));
    assert!(Scalar::zero().inverse().is_none());
    let minus_one = Scalar::zero().sub(&Scalar::one());
    assert_eq!(
        minus_one.to_limbs(),
        [0xffffffff00000000, 0x53bda402fffe5bfe, 0x3339d80809a1d805, 0x73eda753299d7d48]
    );
    assert!(minus_one.add(&Scalar::one()).equals(&Scalar::zero()));
}

#[test]
fn generators_have_standard_encodings() {
    let g1 = G1::generator().to_bytes();
    assert_eq!(g1.len(), 48);
    assert_eq!(&g1[..4], &[0x97, 0xf1, 0xd3, 0xa7]);
    assert_eq!(g1[47], 0xbb);
    let g2 = G2::generator().to_bytes();
    assert_eq!(g2.len(), 96);
    assert_eq!(&g2[..4], &[0x93, 0xe0, 0x2b, 0x60]);
    assert_eq!(g2[95], 0xb8);
    let id = G1::identity().to_bytes();
    assert_eq!(id[0], 0xc0);
    assert!(id[1..].iter().all(|b| *b == 0));
}

#[test]
fn group_operations() {
    let g = G1::generator();
    let two_g = affine_add(&g, &g);
    assert!(two_g.equals(&g.mul(&s(2))));
    assert!(!two_g.equals(&g));
    assert!(affine_add(&g, &G1::identity()).equals(&g));
    assert!(affine_add(&g, &g.neg()).equals(&G1::identity()));
    let h = G2::generator();
    assert!(h.add(&h).equals(&h.mul(&s(2))));
}

#[test]
fn point_decoding() {
    let g = G1::generator();
    let back = G1::from_bytes(&g.to_bytes()).unwrap();
    assert!(back.equals(&g));
    let mut bad = g.to_bytes();
    bad[47] ^= 1;
    assert!(G1::from_bytes(&bad).map_or(true, |p| !p.equals(&g)));
    assert!(G1::from_bytes(&[0u8; 10]).is_none());
}

#[test]
fn linear_combination() {
    let w = vec![s(1), s(2), s(3)];
    let c = vec![s(4), s(5), s(6)];
    assert!(compute_linear_combination(&w, &c).unwrap().equals(&s(32)));
    assert_eq!(compute_linear_combination(&w, &c[..2]).unwrap_err(), ProveError::DimensionMismatch);
}

#[test]
fn witness_commitment() {
    let g = G1::generator();
    let p = compute_witness_commitment(&[s(2), s(3)], &[g, g]).unwrap();
    assert!(p.equals(&g.mul(&s(5))));
    assert_eq!(compute_witness_commitment(&[s(2)], &[g, g]).unwrap_err(), ProveError::DimensionMismatch);
}

#[test]
fn input_commitment() {
    let g = G1::generator();
    let ic = vec![g, g.mul(&s(2))];
    let p = compute_public_input_commitment(&ic, &[s(3)]).unwrap();
    assert!(p.equals(&g.mul(&s(7))));
    assert_eq!(compute_public_input_commitment(&ic, &[]).unwrap_err(), VerifyError::DimensionMismatch);
}

#[test]
fn test_setup_phase1() {
    let num_inputs = 3;
    let mut shape = ConstraintSystem::new_structural();
    let mut publics = Vec::new();
    for _ in 0..num_inputs {
        publics.push(shape.allocate(VarKind::Public, None).unwrap());
    }
    let a = shape.allocate(VarKind::Private, None).unwrap();
    let b = shape.allocate(VarKind::Private, None).unwrap();
    shape.enforce(lc(vec![(1, a)]), lc(vec![(1, b)]), lc(vec![(1, publics[0])])).unwrap();
    let mut rng = SecureRng::from_seed([7u8; 32]);
    let result = setup_phase1(&shape, &mut rng);
    assert!(result.is_ok(), "Setup phase 1 should succeed.");
    let (pk, vk) = result.unwrap();
    let id1 = G1::identity();
    assert!(!pk.alpha_g1.equals(&id1), "ProvingKey.alpha_g1 should not be identity.");
    assert!(!pk.delta_g1.equals(&id1));
    assert!(!vk.alpha_g2.equals(&G2::identity()), "VerificationKey.alpha_g2 should not be identity.");
    assert_eq!(vk.ic.len(), num_inputs + 1, "VerificationKey.ic length should match num_inputs + 1.");
    assert_eq!(pk.a_query.len(), 6);
    assert_eq!(pk.l_query.len(), 2);
    assert_eq!(pk.h_query.len(), 0);
    assert!(pk.beta_g1.equals(&vk.beta_g1));
}

#[test]
fn identity_point_encoding_is_canonical() {
    let proof = Proof { a: G1::identity(), b: G2::identity(), c: G1::identity() };
    let bytes = proof.serialize();
    assert!(Proof::deserialize(&bytes).is_ok());
    let mut t = bytes.clone();
    t[10] ^= 1;
    assert_eq!(Proof::deserialize(&t).unwrap_err(), DecodeError::InvalidPoint);
}

#[test]
fn rescale_by_zero_is_refused() {
    let (mut pk, mut vk) = keys(7);
    let before = vk_bytes(&vk);
    assert_eq!(rescale_delta(&mut pk, &mut vk, &Scalar::zero()), Err(SetupError::DivisionByZero));
    assert_eq!(vk_bytes(&vk), before);
    assert!(rescale_delta(&mut pk, &mut vk, &s(2)).is_ok());
    assert!(vk.delta_g1.equals(&G1::from_bytes(&before[336..384]).unwrap().mul(&s(2))));
}

#[test]
fn empty_circuit_is_refused() {
    let mut rng = SecureRng::from_seed([1u8; 32]);
    let cs = ConstraintSystem::new_structural();
    assert_eq!(setup_phase1(&cs, &mut rng).unwrap_err(), SetupError::EmptyCircuit);
}

#[test]
fn test_setup_phase2() {
    let (mut pk, mut vk) = keys(7);
    let (old_pk, old_vk) = (pk.clone(), vk.clone());
    let mut rng = SecureRng::from_seed([9u8; 32]);
    assert!(setup_phase2(&mut pk, &mut vk, &mut rng).is_ok());
    assert!(!pk.delta_g1.equals(&old_pk.delta_g1));
    assert!(!vk.delta_g2.equals(&old_vk.delta_g2));
    assert!(pk.alpha_g1.equals(&old_pk.alpha_g1));
    assert_eq!(vk.ic.len(), 2);
    let mut prng = SecureRng::from_seed([3u8; 32]);
    let proof = generate_proof(&pk, &assigned(3, 4, 12), &mut prng).unwrap();
    assert_eq!(verify_proof(&vk, &[s(12)], &proof), Ok(true));
}

#[test]
fn completeness() {
    let (pk, vk) = keys(7);
    let mut rng = SecureRng::from_seed([3u8; 32]);
    let cs = assigned(3, 4, 12);
    let proof = create_r1cs_proof(&pk, &[s(12)], &cs, &mut rng).unwrap();
    assert_eq!(verify_proof(&vk, &[s(12)], &proof), Ok(true));
    let details = verify_proof_with_details(&vk, &[s(12)], &proof).unwrap();
    assert!(details.is_valid);
    assert_eq!(details.public_inputs.len(), 1);
}

#[test]
fn wrong_statement_does_not_verify() {
    let (pk, vk) = keys(7);
    let mut rng = SecureRng::from_seed([3u8; 32]);
    let proof = generate_proof(&pk, &assigned(3, 4, 12), &mut rng).unwrap();
    assert_eq!(verify_proof(&vk, &[s(13)], &proof), Ok(false));
}

#[test]
fn soundness_invalid_witness() {
    let (pk, _vk) = keys(7);
    let mut rng = SecureRng::from_seed([3u8; 32]);
    let r = generate_proof(&pk, &assigned(3, 4, 13), &mut rng);
    assert_eq!(r.unwrap_err(), ProveError::InvalidWitness);
}

#[test]
fn public_input_checks_before_proving() {
    let (pk, _vk) = keys(7);
    let mut rng = SecureRng::from_seed([3u8; 32]);
    let cs = assigned(3, 4, 12);
    assert_eq!(create_r1cs_proof(&pk, &[], &cs, &mut rng).unwrap_err(), ProveError::DimensionMismatch);
    assert_eq!(create_r1cs_proof(&pk, &[s(11)], &cs, &mut rng).unwrap_err(), ProveError::PublicInputMismatch);
}

#[test]
fn key_of_another_shape_is_malformed() {
    let (mut pk, _vk) = keys(7);
    pk.l_query.pop();
    let mut rng = SecureRng::from_seed([3u8; 32]);
    assert_eq!(generate_proof(&pk, &assigned(3, 4, 12), &mut rng).unwrap_err(), ProveError::MalformedKey);
}

#[test]
fn wrong_input_length_is_dimension_mismatch() {
    let (pk, vk) = keys(7);
    let mut rng = SecureRng::from_seed([3u8; 32]);
    let proof = generate_proof(&pk, &assigned(3, 4, 12), &mut rng).unwrap();
    assert_eq!(verify_proof(&vk, &[s(12), s(1)], &proof), Err(VerifyError::DimensionMismatch));
    assert_eq!(verify_proof(&vk, &[], &proof), Err(VerifyError::DimensionMismatch));
}

#[test]
fn setup_is_deterministic_under_a_seed() {
    let (pk1, vk1) = keys(5);
    let (pk2, vk2) = keys(5);
    assert_eq!(vk_bytes(&vk1), vk_bytes(&vk2));
    assert_eq!(pk_bytes(&pk1), pk_bytes(&pk2));
    let (pk3, vk3) = keys(6);
    assert_ne!(vk_bytes(&vk1), vk_bytes(&vk3));
    assert_ne!(pk_bytes(&pk1), pk_bytes(&pk3));
}

#[test]
fn test_serialization() {
    let (pk, _vk) = keys(7);
    let mut rng = SecureRng::from_seed([3u8; 32]);
    let proof = generate_proof(&pk, &assigned(3, 4, 12), &mut rng).unwrap();
    let bytes = proof.serialize();
    assert_eq!(bytes.len(), 192);
    let back = Proof::deserialize(&bytes).unwrap();
    assert!(back.a.equals(&proof.a) && back.b.equals(&proof.b) && back.c.equals(&proof.c));
    assert_eq!(Proof::deserialize(&bytes[..191]).unwrap_err(), DecodeError::MalformedKey);
}

#[test]
fn tampered_proof_never_verifies() {
    let (pk, vk) = keys(7);
    let mut rng = SecureRng::from_seed([3u8; 32]);
    let proof = generate_proof(&pk, &assigned(3, 4, 12), &mut rng).unwrap();
    let bytes = proof.serialize();
    for bit in [0usize, 5, 7, 100, 383, 384, 390, 700, 1151, 1152, 1200, 1535] {
        let mut t = bytes.clone();
        t[bit / 8] ^= 1 << (bit % 8);
        match Proof::deserialize(&t) {
            Err(_) => {}
            Ok(p) => assert_eq!(verify_proof(&vk, &[s(12)], &p), Ok(false)),
        }
    }
}

#[test]
fn keys_round_trip() {
    let (pk, vk) = keys(7);
    let pb = pk.serialize();
    let vb = vk.serialize();
    assert_eq!(vb.len(), 488 + 48 * 2);
    let pk2 = ProvingKey::deserialize(&pb).unwrap();
    let vk2 = VerificationKey::deserialize(&vb).unwrap();
    assert_eq!(pk_bytes(&pk2), pk_bytes(&pk));
    assert_eq!(vk_bytes(&vk2), vk_bytes(&vk));
    assert_eq!(pk2.serialize(), pb);
    assert_eq!(vk2.serialize(), vb);
    assert_eq!(VerificationKey::deserialize(&vb[..vb.len() - 1]).unwrap_err(), DecodeError::MalformedKey);
    let mut longer = vb.clone();
    longer.push(0);
    assert_eq!(VerificationKey::deserialize(&longer).unwrap_err(), DecodeError::MalformedKey);
    assert!(ProvingKey::deserialize(&pb[..100]).is_err());
}

#[test]
fn corrupted_key_point_is_rejected() {
    let (_pk, vk) = keys(7);
    let mut vb = vk.serialize();
    vb[100] ^= 0xff;
    match VerificationKey::deserialize(&vb) {
        Err(e) => assert_eq!(e, DecodeError::InvalidPoint),
        Ok(v) => assert!(!v.beta_g1.equals(&vk.beta_g1)),
    }
}

fn lc(terms: Vec<(u64, Variable)>) -> LinearCombination {
    LinearCombination { terms: terms.into_iter().map(|(c, v)| (s(c), v)).collect() }
}

/// `x * x = y`, `y * x = z`, `(z + x + 5) * 1 = out` with `out` public.
fn cubic(cs: &mut ConstraintSystem, x: Option<u64>) -> Result<(), SynthesisError> {
    let val = |f: fn(u64) -> u64| x.map(|v| s(f(v)));
    let out = cs.allocate(VarKind::Public, val(|v| v * v * v + v + 5))?;
    let xv = cs.allocate(VarKind::Private, val(|v| v))?;
    let y = cs.allocate(VarKind::Private, val(|v| v * v))?;
    let z = cs.allocate(VarKind::Private, val(|v| v * v * v))?;
    cs.enforce(lc(vec![(1, xv)]), lc(vec![(1, xv)]), lc(vec![(1, y)]))?;
    cs.enforce(lc(vec![(1, y)]), lc(vec![(1, xv)]), lc(vec![(1, z)]))?;
    cs.enforce(
        lc(vec![(1, z), (1, xv), (5, Variable::One)]),
        lc(vec![(1, Variable::One)]),
        lc(vec![(1, out)]),
    )
}

#[test]
fn completeness_on_a_larger_domain() {
    let mut shape = ConstraintSystem::new_structural();
    cubic(&mut shape, None).unwrap();
    let mut rng = SecureRng::from_seed([11u8; 32]);
    let (pk, vk) = setup_phase1(&shape, &mut rng).unwrap();
    assert_eq!(pk.h_query.len(), 3);
    assert_eq!(vk.ic.len(), 2);
    let mut cs = ConstraintSystem::new_assigned();
    cubic(&mut cs, Some(3)).unwrap();
    assert_eq!(cs.is_satisfied(), Ok(true));
    let proof = create_r1cs_proof(&pk, &[s(35)], &cs, &mut rng).unwrap();
    assert_eq!(verify_proof(&vk, &[s(35)], &proof), Ok(true));
    assert_eq!(verify_proof(&vk, &[s(36)], &proof), Ok(false));
}

#[test]
fn unallocated_variable_is_refused() {
    let mut cs = ConstraintSystem::new_assigned();
    let x = cs.allocate(VarKind::Private, Some(s(2))).unwrap();
    let r = cs.enforce(lc(vec![(1, x)]), lc(vec![(1, Variable::Private(7))]), lc(vec![(1, x)]));
    assert_eq!(r, Err(SynthesisError::UnallocatedVariable));
    assert_eq!(cs.constraints.len(), 0);
}

#[test]
fn roots_of_unity() {
    let minus_one = Scalar::zero().sub(&Scalar::one());
    assert!(Scalar::root_of_unity(2).unwrap().equals(&minus_one));
    let w4 = Scalar::root_of_unity(4).unwrap();
    assert!(w4.mul(&w4).equals(&minus_one));
    assert!(Scalar::root_of_unity(1).unwrap().equals(&Scalar::one()));
    assert!(G2::identity().to_bytes()[0] == 0xc0);
}
