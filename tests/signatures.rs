use rand_core::OsRng;
use redjubjub::point::Point;
use redjubjub::scalar::Scalar;
use redjubjub::{
    Binding, Error, Signature, SigningKey, SpendAuth, VerificationKey, VerificationKeyBytes,
};

fn scalar(n: u64) -> Scalar {
    Scalar::from_u64(n)
}

#[test]
fn sign_then_verify() {
    let mut rng = OsRng;
    let sk = SigningKey::<SpendAuth>::new(&mut rng);
    let vk = sk.verification_key();
    let sig = sk.sign(&mut rng, b"test message");
    assert_eq!(vk.verify(b"test message", &sig), Ok(()));
    let bk = SigningKey::<Binding>::new(&mut rng);
    let bsig = bk.sign(&mut rng, b"test message");
    assert_eq!(bk.verification_key().verify(b"test message", &bsig), Ok(()));
}

#[test]
fn tweaks_invalidate() {
    let mut rng = OsRng;
    let sk = SigningKey::<SpendAuth>::new(&mut rng);
    let vk = sk.verification_key();
    let msg = b"test message for proptests".to_vec();
    let sig = sk.sign(&mut rng, &msg);
    // Change the message.
    let mut other = msg.clone();
    other.push(90);
    assert_eq!(vk.verify(&other, &sig), Err(Error::InvalidSignature));
    // Change s.
    let mut bytes = sig.to_bytes();
    bytes[40] ^= 1;
    let tweaked = Signature::<SpendAuth>::from_bytes(bytes);
    assert_eq!(vk.verify(&msg, &tweaked), Err(Error::InvalidSignature));
    // Change the key to another one.
    let other_vk = SigningKey::<SpendAuth>::new(&mut rng).verification_key();
    assert_eq!(other_vk.verify(&msg, &sig), Err(Error::InvalidSignature));
}

#[test]
fn signature_bytes_round_trip() {
    let mut bytes = [0u8; 64];
    for (i, b) in bytes.iter_mut().enumerate() {
        *b = i as u8;
    }
    let sig = Signature::<SpendAuth>::from_bytes(bytes);
    assert_eq!(sig.r_bytes[..], bytes[0..32]);
    assert_eq!(sig.s_bytes[..], bytes[32..64]);
    assert_eq!(sig.to_bytes(), bytes);
}

#[test]
fn signing_key_bytes_round_trip() {
    let mut rng = OsRng;
    let sk = SigningKey::<SpendAuth>::new(&mut rng);
    let bytes = sk.to_bytes();
    let back = SigningKey::<SpendAuth>::try_from_bytes(bytes).unwrap();
    assert_eq!(back.to_bytes(), bytes);
    assert_eq!(
        SigningKey::<SpendAuth>::try_from_bytes([0xff; 32]).err(),
        Some(Error::MalformedSigningKey)
    );
}

#[test]
fn verification_key_bytes_round_trip() {
    let mut rng = OsRng;
    let vk = SigningKey::<SpendAuth>::new(&mut rng).verification_key();
    let bytes = vk.to_key_bytes();
    let back = VerificationKey::<SpendAuth>::try_from_bytes(bytes).unwrap();
    assert_eq!(back.bytes, vk.bytes);
    // Not a point.
    let bad = VerificationKeyBytes::<SpendAuth>::from_bytes([0xff; 32]);
    assert_eq!(
        VerificationKey::<SpendAuth>::try_from_bytes(bad).err(),
        Some(Error::MalformedVerificationKey)
    );
    // The identity has small order.
    let mut id = [0u8; 32];
    id[0] = 1;
    let identity = VerificationKeyBytes::<SpendAuth>::from_bytes(id);
    assert_eq!(
        VerificationKey::<SpendAuth>::try_from_bytes(identity).err(),
        Some(Error::MalformedVerificationKey)
    );
}

#[test]
fn randomization_commutes_with_pubkey_homomorphism() {
    let mut rng = OsRng;
    let mut wide = [0u8; 64];
    rand_core::RngCore::fill_bytes(&mut rng, &mut wide);
    let r = Scalar::from_bytes_wide(&wide);
    let sk = SigningKey::<SpendAuth>::new(&mut rng);
    let vk = sk.verification_key();
    let sk_r = sk.randomize(&r);
    let vk_r = vk.randomize(&r);
    assert_eq!(sk_r.verification_key().bytes, vk_r.bytes);
    assert_ne!(vk_r.bytes, vk.bytes);
    assert_ne!(sk_r.to_bytes(), sk.to_bytes());
    // Signatures of the randomized key verify under the randomized key.
    let sig = sk_r.sign(&mut rng, b"msg");
    assert_eq!(vk_r.verify(b"msg", &sig), Ok(()));
    assert_eq!(vk.verify(b"msg", &sig), Err(Error::InvalidSignature));
}

#[test]
fn scalar_arithmetic() {
    assert_eq!(scalar(2).add(&scalar(3)).bytes, scalar(5).bytes);
    assert_eq!(scalar(6).mul(&scalar(7)).bytes, scalar(42).bytes);
    assert_eq!(scalar(7).sub(&scalar(6)).bytes, Scalar::one().bytes);
    assert_eq!(scalar(2).invert().mul(&scalar(2)).bytes, Scalar::one().bytes);
    assert!(scalar(0).is_zero());
    assert!(!scalar(1).is_zero());
    // 0 - 1 is the modulus minus one.
    let minus_one = scalar(0).sub(&scalar(1));
    assert_eq!(minus_one.add(&scalar(1)).bytes, Scalar::zero().bytes);
    assert_eq!(minus_one.bytes[0], 0xb6);
    assert_eq!(minus_one.bytes[31], 0x0e);
}

#[test]
fn scalar_wide_reduction_and_canonical_check() {
    let mut wide = [0u8; 64];
    wide[0] = 9;
    assert_eq!(Scalar::from_bytes_wide(&wide).bytes, scalar(9).bytes);
    assert!(Scalar::from_canonical_bytes(scalar(9).bytes).is_some());
    assert!(Scalar::from_canonical_bytes([0xff; 32]).is_none());
}

#[test]
fn point_arithmetic() {
    let b = Point::spend_auth_basepoint();
    assert_eq!(b.bytes, redjubjub::point::SPENDAUTHSIG_BASEPOINT_BYTES);
    let id = Point::identity();
    assert_eq!(id.add(&b).bytes, b.bytes);
    assert_eq!(b.mul(&scalar(2)).bytes, b.add(&b).bytes);
    assert_eq!(b.mul(&scalar(0)).bytes, id.bytes);
    assert!(!b.equals(&id));
    assert!(Point::from_bytes([0xff; 32]).is_none());
}

#[test]
fn h_star_depends_on_input() {
    let a = redjubjub::hash::hash_to_scalar(b"a");
    let b = redjubjub::hash::hash_to_scalar(b"b");
    assert_ne!(a.bytes, b.bytes);
    let streamed = redjubjub::HStar::<redjubjub::StdBlake2b512>::new().update(b"a").finalize();
    assert_eq!(streamed.bytes, a.bytes);
    let split = redjubjub::HStar::<redjubjub::StdBlake2b512>::new()
        .update(b"ab")
        .update(b"c")
        .finalize();
    let whole = redjubjub::hash::hash_to_scalar(b"abc");
    assert_eq!(split.bytes, whole.bytes);
    let by_default = <redjubjub::HStar<redjubjub::StdBlake2b512> as Default>::default().update(b"abc").finalize();
    assert_eq!(by_default.bytes, whole.bytes);
}
