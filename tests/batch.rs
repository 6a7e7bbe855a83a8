use rand_core::OsRng;
use redjubjub::batch::{Item, Verifier};
use redjubjub::{Binding, SigningKey, SpendAuth, VerificationKey};

#[test]
fn batch_verify() {
    let mut rng = OsRng;
    let mut batch = Verifier::new();
    for _ in 0..32 {
        let sk = SigningKey::<SpendAuth>::new(&mut rng);
        let vk = VerificationKey::from_signing_key(&sk);
        let msg = b"BatchVerifyTest";
        let sig = sk.sign(&mut rng, &msg[..]);
        batch.queue(Item::from_spend_auth(vk.to_key_bytes(), sig, &msg[..]));
    }
    assert!(batch.verify(&mut rng).is_ok());
}

#[test]
fn batch_verify_same_key_empty_messages() {
    let mut rng = OsRng;
    let sk = SigningKey::<SpendAuth>::new(&mut rng);
    let vk = VerificationKey::from_signing_key(&sk);
    let mut batch = Verifier::new();
    for _ in 0..32 {
        let sig = sk.sign(&mut rng, b"");
        batch.queue(Item::from_spend_auth(vk.to_key_bytes(), sig, b""));
    }
    assert!(batch.verify(&mut rng).is_ok());
}

#[test]
fn batch_verify_mixed_families() {
    let mut rng = OsRng;
    let mut batch = Verifier::new();
    for i in 0..8u8 {
        let msg = [i; 5];
        let sk = SigningKey::<SpendAuth>::new(&mut rng);
        let sig = sk.sign(&mut rng, &msg);
        batch.queue(Item::from_spend_auth(VerificationKey::from_signing_key(&sk).to_key_bytes(), sig, &msg));
        let bk = SigningKey::<Binding>::new(&mut rng);
        let bsig = bk.sign(&mut rng, &msg);
        batch.queue(Item::from_binding(VerificationKey::from_signing_key(&bk).to_key_bytes(), bsig, &msg));
    }
    assert!(batch.verify(&mut rng).is_ok());
}

#[test]
fn batch_with_invalid_item_fails() {
    let mut rng = OsRng;
    let mut batch = Verifier::new();
    for i in 0..4u8 {
        let sk = SigningKey::<SpendAuth>::new(&mut rng);
        let vk = VerificationKey::from_signing_key(&sk);
        let sig = sk.sign(&mut rng, &[i]);
        // The last item is queued with a message other than the signed one.
        let msg = if i == 3 { [9u8] } else { [i] };
        let item = Item::from_spend_auth(vk.to_key_bytes(), sig, &msg);
        assert_eq!(item.clone().verify_single().is_ok(), i != 3);
        batch.queue(item);
    }
    assert_eq!(batch.verify(&mut rng), Err(redjubjub::Error::InvalidSignature));
}

#[test]
fn batch_rejects_undecodable_r() {
    let mut rng = OsRng;
    let sk = SigningKey::<SpendAuth>::new(&mut rng);
    let vk = VerificationKey::from_signing_key(&sk);
    let sig = sk.sign(&mut rng, b"m");
    let mut bytes = sig.to_bytes();
    // Not a canonical point encoding: v = p is out of range.
    for b in bytes[0..32].iter_mut() {
        *b = 0xff;
    }
    let bad = redjubjub::Signature::<SpendAuth>::from_bytes(bytes);
    let mut batch = Verifier::new();
    batch.queue(Item::from_spend_auth(vk.to_key_bytes(), bad, b"m"));
    assert!(batch.verify(&mut rng).is_err());
}

#[test]
fn verify_single_rejects_small_order_keys() {
    let mut rng = OsRng;
    let sk = SigningKey::<SpendAuth>::new(&mut rng);
    let sig = sk.sign(&mut rng, b"m");
    let mut id = [0u8; 32];
    id[0] = 1;
    let item = Item::from_spend_auth(redjubjub::VerificationKeyBytes::from_bytes(id), sig, b"m");
    assert_eq!(item.verify_single(), Err(redjubjub::Error::MalformedVerificationKey));
    let vk = VerificationKey::from_signing_key(&sk);
    let item = Item::from_spend_auth(vk.to_key_bytes(), sig, b"other");
    assert_eq!(item.verify_single(), Err(redjubjub::Error::InvalidSignature));
}

#[test]
fn batch_rejects_small_order_keys() {
    let mut rng = OsRng;
    let sk = SigningKey::<SpendAuth>::new(&mut rng);
    let sig = sk.sign(&mut rng, b"m");
    let mut id = [0u8; 32];
    id[0] = 1;
    let mut batch = Verifier::new();
    batch.queue(Item::from_spend_auth(VerificationKey::from_signing_key(&sk).to_key_bytes(), sig, b"m"));
    batch.queue(Item::from_spend_auth(redjubjub::VerificationKeyBytes::from_bytes(id), sig, b"m"));
    assert_eq!(batch.verify(&mut rng), Err(redjubjub::Error::MalformedVerificationKey));
}
