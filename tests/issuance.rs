use credit_tokens::{
    CreditToken, IssuanceRequest, IssuanceResponse, Params, Point, PreIssuance, PrivateKey, PublicKey, Scalar, Transcript,
};
use rand_chacha::ChaCha20Rng;
use rand_core::{OsRng, RngCore, SeedableRng};

fn os_seeded() -> ChaCha20Rng {
    ChaCha20Rng::from_rng(OsRng).unwrap()
}

fn fixed_rng(tag: u8) -> ChaCha20Rng {
    ChaCha20Rng::from_seed([tag; 32])
}

fn flip_bit(bytes: &[u8], index: usize) -> Vec<u8> {
    let mut out = bytes.to_vec();
    out[index] ^= 1;
    out
}

#[test]
fn issuance() {
    let mut rng = os_seeded();
    for _i in 0..100 {
        let private_key = PrivateKey::random(&mut rng);
        let preissuance = PreIssuance::random(&mut rng);
        let issuance_request = preissuance.request(&mut rng);
        let issuance_response = private_key
            .issue(&issuance_request, Scalar::from_u64(20), &mut rng)
            .unwrap();
        let _credit_token1 = preissuance
            .to_credit_token(private_key.public(), &issuance_request, &issuance_response)
            .unwrap();
    }
}

#[test]
fn round_trip_keeps_randomiser_value_and_opening() {
    let mut rng = fixed_rng(1);
    for i in 0..20u64 {
        let key = PrivateKey::random(&mut rng);
        let r = Scalar::random(&mut rng);
        let k = Scalar::random(&mut rng);
        let pre = PreIssuance::new(r, k);
        let request = pre.request(&mut rng);
        let n = Scalar::from_u64(i * 1000 + 7);
        let response = key.issue(&request, n, &mut rng).unwrap();
        let token = pre.to_credit_token(key.public(), &request, &response).unwrap();
        assert_eq!(token.n().to_bytes(), n.to_bytes());
        assert_eq!(token.r().to_bytes(), r.to_bytes());
        assert_eq!(token.k().to_bytes(), k.to_bytes());
        let wire = response.to_bytes();
        assert_eq!(token.a().to_bytes().to_vec(), wire[0..32].to_vec());
        assert_eq!(token.e().to_bytes().to_vec(), wire[32..64].to_vec());
    }
}

#[test]
fn fixed_opening_scenario() {
    let mut rng = fixed_rng(7);
    let key = PrivateKey::random(&mut rng);
    let pre = PreIssuance::new(Scalar::from_u64(1), Scalar::from_u64(2));
    let request = pre.request(&mut rng);
    let response = key.issue(&request, Scalar::from_u64(20), &mut rng).unwrap();
    let token = pre.to_credit_token(key.public(), &request, &response).unwrap();
    assert_eq!(token.n().to_bytes(), Scalar::from_u64(20).to_bytes());
    assert_eq!(token.r().to_bytes(), Scalar::from_u64(1).to_bytes());
    assert_eq!(token.k().to_bytes(), Scalar::from_u64(2).to_bytes());
}

#[test]
fn forged_request_is_rejected() {
    let mut rng = fixed_rng(2);
    let key = PrivateKey::random(&mut rng);
    let pre = PreIssuance::random(&mut rng);
    let other = PreIssuance::random(&mut rng);
    let request = pre.request(&mut rng);
    let other_request = other.request(&mut rng);
    let wire = request.to_bytes();
    assert!(key.issue(&request, Scalar::from_u64(5), &mut rng).is_some());
    // Each scalar field with one bit flipped.
    for index in [32usize, 64, 96] {
        let forged = IssuanceRequest::from_bytes(&flip_bit(&wire, index)).unwrap();
        assert!(key.issue(&forged, Scalar::from_u64(5), &mut rng).is_none());
    }
    // A bit of the commitment flipped: either no element at all, or a rejected proof.
    if let Some(forged) = IssuanceRequest::from_bytes(&flip_bit(&wire, 0)) {
        assert!(key.issue(&forged, Scalar::from_u64(5), &mut rng).is_none());
    }
    // The commitment of another request.
    let mut swapped = wire.clone();
    swapped[0..32].copy_from_slice(&other_request.to_bytes()[0..32]);
    let forged = IssuanceRequest::from_bytes(&swapped).unwrap();
    assert!(key.issue(&forged, Scalar::from_u64(5), &mut rng).is_none());
}

#[test]
fn forged_response_is_rejected() {
    let mut rng = fixed_rng(3);
    let key = PrivateKey::random(&mut rng);
    let pre = PreIssuance::random(&mut rng);
    let request = pre.request(&mut rng);
    let response = key.issue(&request, Scalar::from_u64(20), &mut rng).unwrap();
    let other_response = key.issue(&request, Scalar::from_u64(20), &mut rng).unwrap();
    let wire = response.to_bytes();
    assert!(pre.to_credit_token(key.public(), &request, &response).is_some());
    for index in [32usize, 64, 96, 128] {
        let forged = IssuanceResponse::from_bytes(&flip_bit(&wire, index)).unwrap();
        assert!(pre.to_credit_token(key.public(), &request, &forged).is_none());
    }
    let mut swapped = wire.clone();
    swapped[0..32].copy_from_slice(&other_response.to_bytes()[0..32]);
    let forged = IssuanceResponse::from_bytes(&swapped).unwrap();
    assert!(pre.to_credit_token(key.public(), &request, &forged).is_none());
}

#[test]
fn response_for_another_request_is_rejected() {
    let mut rng = fixed_rng(4);
    let key = PrivateKey::random(&mut rng);
    let pre = PreIssuance::random(&mut rng);
    let other = PreIssuance::random(&mut rng);
    let request = pre.request(&mut rng);
    let other_request = other.request(&mut rng);
    let response = key.issue(&other_request, Scalar::from_u64(20), &mut rng).unwrap();
    assert!(pre.to_credit_token(key.public(), &request, &response).is_none());
}

#[test]
fn other_public_key_is_rejected() {
    let mut rng = fixed_rng(5);
    let key = PrivateKey::random(&mut rng);
    let other_key = PrivateKey::random(&mut rng);
    let pre = PreIssuance::random(&mut rng);
    let request = pre.request(&mut rng);
    let response = key.issue(&request, Scalar::from_u64(20), &mut rng).unwrap();
    assert!(pre.to_credit_token(other_key.public(), &request, &response).is_none());
    assert!(pre.to_credit_token(key.public(), &request, &response).is_some());
}

#[test]
fn params_are_deterministic() {
    let a = Params::default();
    let b = Params::default();
    let c = Params::standard();
    assert_eq!(a.to_bytes(), b.to_bytes());
    assert_eq!(a.to_bytes(), c.to_bytes());
    let (h0, h1, h2) = a.to_bytes();
    assert_ne!(h0, h1);
    assert_ne!(h1, h2);
    assert_ne!(h0, h2);
}

#[test]
fn transcript_order_matters() {
    let g = Point::generator();
    let two_g = g.add(&g);
    let mut first = Transcript::new(b"order");
    first.add_elements(&[g, two_g]);
    let mut second = Transcript::new(b"order");
    second.add_elements(&[two_g, g]);
    assert_ne!(first.challenge().to_bytes(), second.challenge().to_bytes());
}

#[test]
fn transcript_is_deterministic_and_label_bound() {
    let g = Point::generator();
    let s = Scalar::from_u64(9);
    let make = |label: &[u8]| {
        let mut t = Transcript::new(label);
        t.add_scalar(&s);
        t.add_element(&g);
        t.challenge().to_bytes()
    };
    assert_eq!(make(b"request"), make(b"request"));
    assert_ne!(make(b"request"), make(b"respond"));
}

#[test]
fn degenerate_randomiser_gives_no_response() {
    let mut rng = fixed_rng(6);
    let x = Scalar::random(&mut rng);
    let key = PrivateKey::from_secret(x);
    let pre = PreIssuance::random(&mut rng);
    let request = pre.request(&mut rng);
    let n = Scalar::from_u64(3);
    let alpha = Scalar::from_u64(11);
    assert!(key.issue_with(&request, &n, &x.neg(), &alpha).is_none());
    assert!(key.issue_with(&request, &n, &Scalar::from_u64(4), &alpha).is_some());
}

#[test]
fn request_with_fixed_nonces_is_reproducible() {
    let pre = PreIssuance::new(Scalar::from_u64(1), Scalar::from_u64(2));
    let a = pre.request_with(&Scalar::from_u64(3), &Scalar::from_u64(4));
    let b = pre.request_with(&Scalar::from_u64(3), &Scalar::from_u64(4));
    let c = pre.request_with(&Scalar::from_u64(3), &Scalar::from_u64(5));
    assert_eq!(a.to_bytes(), b.to_bytes());
    assert_eq!(a.to_bytes()[0..32], c.to_bytes()[0..32]);
    assert_ne!(a.to_bytes(), c.to_bytes());
    let key = PrivateKey::from_secret(Scalar::from_u64(99));
    let response = key
        .issue_with(&a, &Scalar::from_u64(20), &Scalar::from_u64(6), &Scalar::from_u64(8))
        .unwrap();
    assert!(pre.to_credit_token(key.public(), &a, &response).is_some());
}

#[test]
fn wire_forms_round_trip_and_reject_bad_lengths() {
    let mut rng = fixed_rng(8);
    let key = PrivateKey::random(&mut rng);
    let pre = PreIssuance::random(&mut rng);
    let request = pre.request(&mut rng);
    let response = key.issue(&request, Scalar::from_u64(1), &mut rng).unwrap();
    let rw = request.to_bytes();
    let pw = response.to_bytes();
    assert_eq!(rw.len(), 128);
    assert_eq!(pw.len(), 160);
    assert_eq!(IssuanceRequest::from_bytes(&rw).unwrap().to_bytes(), rw);
    assert_eq!(IssuanceResponse::from_bytes(&pw).unwrap().to_bytes(), pw);
    assert!(IssuanceRequest::from_bytes(&rw[0..127]).is_none());
    assert!(IssuanceResponse::from_bytes(&pw[0..128]).is_none());
    let mut bad_scalar = rw.clone();
    for byte in bad_scalar[32..64].iter_mut() {
        *byte = 0xff;
    }
    assert!(IssuanceRequest::from_bytes(&bad_scalar).is_none());
}

#[test]
fn scalar_arithmetic() {
    let two = Scalar::from_u64(2);
    let three = Scalar::from_u64(3);
    assert_eq!(two.add(&three).to_bytes(), Scalar::from_u64(5).to_bytes());
    assert_eq!(two.mul(&three).to_bytes(), Scalar::from_u64(6).to_bytes());
    assert_eq!(two.neg().add(&two).to_bytes(), Scalar::from_u64(0).to_bytes());
    assert_eq!(two.invert().mul(&two).to_bytes(), Scalar::from_u64(1).to_bytes());
    assert_ne!(two.invert().to_bytes(), two.to_bytes());
    assert_ne!(two.neg().to_bytes(), two.to_bytes());
    assert!(Scalar::from_u64(0).is_zero());
    assert!(!Scalar::from_u64(256).is_zero());
    assert!(two.same_as(&Scalar::from_u64(2)));
    assert!(!two.same_as(&three));
    let mut five = [0u8; 32];
    five[0] = 5;
    assert_eq!(Scalar::from_u64(5).to_bytes(), five);
    assert!(Scalar::from_bytes([0xff; 32]).is_none());
    assert_eq!(Scalar::from_bytes(five).unwrap().to_bytes(), five);
}

#[test]
fn point_arithmetic() {
    let g = Point::generator();
    assert_eq!(
        g.to_bytes(),
        [
            0xe2, 0xf2, 0xae, 0x0a, 0x6a, 0xbc, 0x4e, 0x71, 0xa8, 0x84, 0xa9, 0x61, 0xc5, 0x00,
            0x51, 0x5f, 0x58, 0xe3, 0x0b, 0x6a, 0xa5, 0x82, 0xdd, 0x8d, 0xb6, 0xa6, 0x59, 0x45,
            0xe0, 0x8d, 0x2d, 0x76,
        ]
    );
    let two_g = g.add(&g);
    let three_g = g.mul(&Scalar::from_u64(3));
    assert_eq!(two_g.to_bytes(), g.mul(&Scalar::from_u64(2)).to_bytes());
    assert_ne!(two_g.to_bytes(), g.to_bytes());
    assert_eq!(three_g.sub(&g).to_bytes(), two_g.to_bytes());
    assert_eq!(g.sub(&g).to_bytes(), [0u8; 32]);
    assert_eq!(Point::from_bytes(two_g.to_bytes()).unwrap().to_bytes(), two_g.to_bytes());
    assert!(Point::from_bytes([0xff; 32]).is_none());
}

#[test]
fn public_key_is_generator_times_secret() {
    let key = PrivateKey::from_secret(Scalar::from_u64(7));
    let expected = Point::generator().mul(&Scalar::from_u64(7));
    assert_eq!(key.public().to_bytes(), expected.to_bytes());
}

#[test]
fn keys_openings_and_tokens_round_trip_through_bytes() {
    let mut rng = fixed_rng(9);
    let key = PrivateKey::random(&mut rng);
    let restored = PrivateKey::from_bytes(key.to_bytes()).unwrap();
    assert_eq!(restored.public().to_bytes(), key.public().to_bytes());
    let public = PublicKey::from_bytes(key.public().to_bytes()).unwrap();
    assert_eq!(public.to_bytes(), key.public().to_bytes());
    assert!(PublicKey::from_bytes([0xff; 32]).is_none());
    assert!(PrivateKey::from_bytes([0xff; 32]).is_none());

    let pre = PreIssuance::new(Scalar::from_u64(1), Scalar::from_u64(2));
    let pre_bytes = pre.to_bytes();
    assert_eq!(pre_bytes.len(), 64);
    assert_eq!(pre_bytes[0], 1);
    assert_eq!(pre_bytes[32], 2);
    let pre_back = PreIssuance::from_bytes(&pre_bytes).unwrap();
    assert_eq!(pre_back.to_bytes(), pre_bytes);
    assert!(PreIssuance::from_bytes(&pre_bytes[0..63]).is_none());

    let request = pre_back.request(&mut rng);
    let response = restored.issue(&request, Scalar::from_u64(20), &mut rng).unwrap();
    let token = pre_back.to_credit_token(&public, &request, &response).unwrap();
    let token_bytes = token.to_bytes();
    assert_eq!(token_bytes.len(), 160);
    let token_back = CreditToken::from_bytes(&token_bytes).unwrap();
    assert_eq!(token_back.to_bytes(), token_bytes);
    assert_eq!(token_back.n().to_bytes(), Scalar::from_u64(20).to_bytes());
    assert!(CreditToken::from_bytes(&token_bytes[0..159]).is_none());
}

#[test]
fn rejected_request_draws_nothing() {
    let mut rng = fixed_rng(10);
    let key = PrivateKey::random(&mut rng);
    let pre = PreIssuance::random(&mut rng);
    let request = pre.request(&mut rng);
    let forged = IssuanceRequest::from_bytes(&flip_bit(&request.to_bytes(), 32)).unwrap();
    assert!(!forged.check());
    assert!(request.check());
    let mut used = rng.clone();
    assert!(key.issue(&forged, Scalar::from_u64(1), &mut used).is_none());
    assert_eq!(used.next_u64(), rng.next_u64());
}
