use rand_core::OsRng;
use redjubjub::frost::{
    self, aggregator, generate_shares, keygen_with_dealer, preprocess, signer, verify_share, Config,
    KeyPackage, SecretShare, SharePackage, SigningPackage,
};
use redjubjub::scalar::Scalar;
use redjubjub::Error;

fn scalar(n: u64) -> Scalar {
    Scalar::from_u64(n)
}

fn lagrange_at_zero(indices: &[u32], i: u32) -> Scalar {
    let mut num = Scalar::one();
    let mut den = Scalar::one();
    for &j in indices {
        if j == i {
            continue;
        }
        num = num.mul(&scalar(j as u64));
        den = den.mul(&scalar(j as u64).sub(&scalar(i as u64)));
    }
    num.mul(&den.invert())
}

#[test]
fn check_share_generation() {
    let mut rng = OsRng;
    let mut bytes = [0u8; 64];
    rand_core::RngCore::fill_bytes(&mut rng, &mut bytes);
    let secret = frost::Secret(Scalar::from_bytes_wide(&bytes));
    let coefficients: Vec<Scalar> = (0..2)
        .map(|_| {
            let mut b = [0u8; 64];
            rand_core::RngCore::fill_bytes(&mut rng, &mut b);
            Scalar::from_bytes_wide(&b)
        })
        .collect();
    let shares = generate_shares(&secret, &coefficients, 5, 3).unwrap();
    assert_eq!(shares.len(), 5);
    for share in shares.iter() {
        assert_eq!(verify_share(share), Ok(()));
    }
    // Any three shares reconstruct the secret.
    for set in [[1u32, 2, 3], [2, 4, 5], [1, 3, 5]] {
        let mut acc = Scalar::zero();
        for &i in set.iter() {
            let l = lagrange_at_zero(&set, i);
            acc = acc.add(&l.mul(&shares[(i - 1) as usize].value.0));
        }
        assert_eq!(acc.bytes, secret.0.bytes);
    }
}

#[test]
fn shares_are_polynomial_values() {
    let secret = frost::Secret(scalar(42));
    let shares = generate_shares(&secret, &vec![scalar(5), scalar(7)], 3, 3).unwrap();
    let expected = [54u64, 80, 120];
    for (j, share) in shares.iter().enumerate() {
        assert_eq!(share.receiver_index, j as u32 + 1);
        assert_eq!(share.value.0.bytes, scalar(expected[j]).bytes);
        assert_eq!(share.commitment.0.len(), 3);
    }
}

#[test]
fn tampered_share_is_rejected() {
    let secret = frost::Secret(scalar(42));
    let mut shares = generate_shares(&secret, &vec![scalar(5)], 2, 2).unwrap();
    shares[0].value = frost::Secret(scalar(48));
    assert_eq!(verify_share(&shares[0]), Err(Error::InvalidShare));
    assert_eq!(verify_share(&shares[1]), Ok(()));
}

#[test]
fn sharing_parameter_errors() {
    let secret = frost::Secret(scalar(1));
    assert_eq!(generate_shares(&secret, &vec![], 3, 0).err(), Some(Error::ZeroThreshold));
    assert_eq!(generate_shares(&secret, &vec![], 0, 1).err(), Some(Error::ZeroShares));
    assert_eq!(
        generate_shares(&secret, &vec![scalar(1), scalar(2)], 2, 3).err(),
        Some(Error::ThresholdExceedShares)
    );
    let mut rng = OsRng;
    assert_eq!(keygen_with_dealer(0, 1, &mut rng).err(), Some(Error::ZeroShares));
}

#[test]
fn check_sign_with_dealer() {
    let mut rng = OsRng;
    let numsigners = 5;
    let threshold = 3;
    let (shares, pubkeys) = keygen_with_dealer(numsigners, threshold, &mut rng).unwrap();

    let mut nonces = Vec::new();
    let mut commitments = Vec::new();
    for participant_index in 1..(threshold + 1) {
        let (nonce, commitment) = preprocess(1, participant_index, &mut rng);
        nonces.push((participant_index, nonce));
        commitments.push(commitment[0]);
    }

    let message = "message to sign".as_bytes();
    let signing_package = SigningPackage {
        message: message.to_vec(),
        signing_commitments: commitments,
    };

    let mut signature_shares = Vec::new();
    for (participant_index, nonce) in nonces {
        let share_package: &SharePackage =
            shares.iter().find(|share| participant_index == share.index).unwrap();
        let signature_share = frost::sign(&signing_package, nonce[0], share_package).unwrap();
        signature_shares.push(signature_share);
    }

    let group_signature_res = frost::aggregate(&signing_package, &signature_shares, &pubkeys);
    assert!(group_signature_res.is_ok());
    let group_signature = group_signature_res.unwrap();
    assert!(pubkeys.group_public.verify(message, &group_signature).is_ok());

    // A share that does not answer the package is rejected.
    let mut bad = signature_shares.clone();
    bad[0].signature = bad[0].signature.add(&Scalar::one());
    assert_eq!(
        frost::aggregate(&signing_package, &bad, &pubkeys).err(),
        Some(Error::InvalidSignatureShare(bad[0].index))
    );
}

#[test]
fn sign_without_own_commitment_fails() {
    let mut rng = OsRng;
    let (shares, _pubkeys) = keygen_with_dealer(3, 2, &mut rng).unwrap();
    let (nonces, c1) = preprocess(1, 1, &mut rng);
    let (_, c2) = preprocess(1, 2, &mut rng);
    let package = SigningPackage { message: b"m".to_vec(), signing_commitments: vec![c1[0], c2[0]] };
    assert_eq!(frost::sign(&package, nonces[0], &shares[2]).err(), Some(Error::NoMatchingBinding));
}

fn session_shares(rng: &mut OsRng) -> (Vec<SecretShare>, frost::PublicKeyPackage) {
    let (packages, pubkeys) = keygen_with_dealer(5, 3, rng).unwrap();
    let mut out = Vec::new();
    for (i, p) in packages.into_iter().enumerate() {
        let key = KeyPackage::try_from_share_package(p).unwrap();
        let config = Config { num_shares: 5, threshold: 3, share_id: i + 1 };
        out.push(SecretShare::new(config, key).unwrap());
    }
    (out, pubkeys)
}

#[test]
fn signing_session_produces_valid_signature() {
    let mut rng = OsRng;
    let (mut shares, pubkeys) = session_shares(&mut rng);
    let msg = b"message to sign";
    let participants = vec![1u32, 2, 3];
    let agg = frost::begin_sign(pubkeys.clone(), 3, msg, participants.clone()).unwrap();
    let mut states = Vec::new();
    let mut commitment_shares = Vec::new();
    for share in shares.iter_mut().take(3) {
        let (state, c) = share.begin_sign(msg, &participants, &mut rng).unwrap();
        states.push(state);
        commitment_shares.push(c);
    }
    let (agg, commitment) = agg.recv(commitment_shares).unwrap();
    let mut responses = Vec::new();
    for (state, share) in states.into_iter().zip(shares.iter_mut()) {
        responses.push(state.recv(share, commitment.clone()).unwrap());
        assert!(!share.in_session);
    }
    let expected_s = responses
        .iter()
        .fold(Scalar::zero(), |acc, r| acc.add(&r.share.signature));
    let sig = agg.recv(responses).unwrap();
    assert_eq!(sig.s_bytes, expected_s.bytes);
    assert!(pubkeys.group_public.verify(msg, &sig).is_ok());
    assert_eq!(shares[0].group_public().bytes, pubkeys.group_public.bytes);
}

#[test]
fn too_few_signers_are_rejected() {
    let mut rng = OsRng;
    let (mut shares, pubkeys) = session_shares(&mut rng);
    let participants = vec![1u32, 2];
    assert_eq!(
        frost::begin_sign(pubkeys, 3, b"message to sign", participants.clone()).err(),
        Some(aggregator::Error::InvalidSigners)
    );
    assert_eq!(
        shares[0].begin_sign(b"message to sign", &participants, &mut rng).err(),
        Some(signer::Error::InvalidSigners)
    );
    assert!(!shares[0].in_session);
}

#[test]
fn concurrent_sessions_are_refused() {
    let mut rng = OsRng;
    let (mut shares, _pubkeys) = session_shares(&mut rng);
    let participants = vec![1u32, 2, 3];
    let first = shares[0].begin_sign(b"one", &participants, &mut rng);
    assert!(first.is_ok());
    let second = shares[0].begin_sign(b"two", &participants, &mut rng);
    assert_eq!(second.err(), Some(signer::Error::SessionInProgress));
    assert!(shares[0].in_session);
    // Ending the first session frees the share.
    let (state, _c) = first.unwrap();
    let wrong = aggregator::Commitment {
        package: SigningPackage { message: b"other".to_vec(), signing_commitments: vec![] },
    };
    assert_eq!(state.recv(&mut shares[0], wrong).err(), Some(signer::Error::WrongCommitment));
    assert!(!shares[0].in_session);
    assert!(shares[0].begin_sign(b"two", &participants, &mut rng).is_ok());
}

#[test]
fn share_configuration_is_checked() {
    let mut rng = OsRng;
    let (packages, _pubkeys) = keygen_with_dealer(3, 2, &mut rng).unwrap();
    let key = KeyPackage::try_from_share_package(packages[0].clone()).unwrap();
    let wrong_id = Config { num_shares: 3, threshold: 2, share_id: 2 };
    assert_eq!(SecretShare::new(wrong_id, key).err(), Some(Error::InvalidSigners));
    let too_high = Config { num_shares: 3, threshold: 4, share_id: 1 };
    assert_eq!(SecretShare::new(too_high, key).err(), Some(Error::InvalidSigners));
    let ok = Config { num_shares: 3, threshold: 2, share_id: 1 };
    assert!(SecretShare::new(ok, key).is_ok());
}

#[test]
fn aggregate_rejects_unknown_signers() {
    let mut rng = OsRng;
    let (shares, pubkeys) = keygen_with_dealer(3, 2, &mut rng).unwrap();
    let (n1, c1) = preprocess(1, 1, &mut rng);
    let (n2, c2) = preprocess(1, 2, &mut rng);
    let package = SigningPackage { message: b"m".to_vec(), signing_commitments: vec![c1[0], c2[0]] };
    let z1 = frost::sign(&package, n1[0], &shares[0]).unwrap();
    let z2 = frost::sign(&package, n2[0], &shares[1]).unwrap();
    assert!(frost::aggregate(&package, &vec![z1, z2], &pubkeys).is_ok());
    // An index with no public key.
    let mut stranger = z2;
    stranger.index = 7;
    assert_eq!(frost::aggregate(&package, &vec![z1, stranger], &pubkeys).err(), Some(Error::InvalidSigners));
    // A known signer without a commitment in the package.
    let mut third = z2;
    third.index = 3;
    assert_eq!(frost::aggregate(&package, &vec![z1, third], &pubkeys).err(), Some(Error::NoMatchingCommitment));
}

#[test]
fn aggregator_checks_messages_and_shares() {
    let mut rng = OsRng;
    let (mut shares, pubkeys) = session_shares(&mut rng);
    let participants = vec![1u32, 2, 3];
    let msg = b"message to sign";
    let mut states = Vec::new();
    let mut commitment_shares = Vec::new();
    for share in shares.iter_mut().take(3) {
        let (state, c) = share.begin_sign(msg, &participants, &mut rng).unwrap();
        states.push(state);
        commitment_shares.push(c);
    }
    // Commitments out of order are refused.
    let agg = frost::begin_sign(pubkeys.clone(), 3, msg, participants.clone()).unwrap();
    let swapped = vec![commitment_shares[1], commitment_shares[0], commitment_shares[2]];
    assert_eq!(agg.recv(swapped).err(), Some(aggregator::Error::WrongShares));
    // A bad response is refused, naming its signer.
    let agg = frost::begin_sign(pubkeys.clone(), 3, msg, participants.clone()).unwrap();
    let (agg, commitment) = agg.recv(commitment_shares).unwrap();
    let mut responses = Vec::new();
    for (state, share) in states.into_iter().zip(shares.iter_mut()) {
        responses.push(state.recv(share, commitment.clone()).unwrap());
    }
    responses[1].share.signature = responses[1].share.signature.add(&Scalar::one());
    assert_eq!(
        agg.recv(responses).err(),
        Some(aggregator::Error::Signing(Error::InvalidSignatureShare(2)))
    );
}

#[test]
fn commitments_are_collated_by_index() {
    let mut rng = OsRng;
    let (shares, pubkeys) = keygen_with_dealer(3, 2, &mut rng).unwrap();
    let (n1, c1) = preprocess(1, 1, &mut rng);
    let (n2, c2) = preprocess(1, 2, &mut rng);
    let ordered = SigningPackage { message: b"m".to_vec(), signing_commitments: vec![c1[0], c2[0]] };
    let swapped = SigningPackage { message: b"m".to_vec(), signing_commitments: vec![c2[0], c1[0]] };
    let z1 = frost::sign(&ordered, n1[0], &shares[0]).unwrap();
    let z1_swapped = frost::sign(&swapped, n1[0], &shares[0]).unwrap();
    assert_eq!(z1.signature.bytes, z1_swapped.signature.bytes);
    let z2 = frost::sign(&swapped, n2[0], &shares[1]).unwrap();
    let sig = frost::aggregate(&swapped, &vec![z2, z1], &pubkeys).unwrap();
    let same = frost::aggregate(&ordered, &vec![z1, z2], &pubkeys).unwrap();
    assert_eq!(sig.r_bytes, same.r_bytes);
    assert_eq!(sig.s_bytes, same.s_bytes);
    assert!(pubkeys.group_public.verify(b"m", &sig).is_ok());
    // The same participant twice is refused.
    let doubled = SigningPackage { message: b"m".to_vec(), signing_commitments: vec![c1[0], c1[0]] };
    assert_eq!(frost::sign(&doubled, n1[0], &shares[0]).err(), Some(Error::DuplicateShares));
    assert_eq!(frost::aggregate(&doubled, &vec![z1], &pubkeys).err(), Some(Error::DuplicateShares));
}

#[test]
fn unordered_participants_sign() {
    let mut rng = OsRng;
    let (mut shares, pubkeys) = session_shares(&mut rng);
    let participants = vec![3u32, 1, 2];
    let msg = b"message to sign";
    let agg = frost::begin_sign(pubkeys.clone(), 3, msg, participants.clone()).unwrap();
    let mut states = Vec::new();
    let mut commitment_shares = Vec::new();
    for &i in participants.iter() {
        let (state, c) = shares[(i - 1) as usize].begin_sign(msg, &participants, &mut rng).unwrap();
        states.push((i, state));
        commitment_shares.push(c);
    }
    let (agg, commitment) = agg.recv(commitment_shares).unwrap();
    let mut responses = Vec::new();
    for (i, state) in states.into_iter() {
        responses.push(state.recv(&mut shares[(i - 1) as usize], commitment.clone()).unwrap());
    }
    let sig = agg.recv(responses).unwrap();
    assert!(pubkeys.group_public.verify(msg, &sig).is_ok());
    let repeated = vec![1u32, 1, 2];
    assert_eq!(
        frost::begin_sign(pubkeys, 3, msg, repeated).err(),
        Some(aggregator::Error::InvalidSigners)
    );
}

#[test]
fn group_key_is_first_commitment() {
    let mut rng = OsRng;
    let (packages, pubkeys) = keygen_with_dealer(4, 3, &mut rng).unwrap();
    for p in packages.iter() {
        assert_eq!(p.share.commitment.0.len(), 3);
        assert_eq!(p.share.commitment.0[0].0.bytes, pubkeys.group_public.bytes);
        assert_eq!(verify_share(&p.share), Ok(()));
    }
}
