use redjubjub::messages::constants::{self, BASIC_FROST_SERIALIZATION};
use redjubjub::messages::validate::{create_valid_header, MsgErr, Validate};
use redjubjub::messages::{
    AggregateSignature, Commitment, GroupCommitment, Header, Message, MsgVersion, ParticipantId,
    Payload, Secret, SharePackage, SignatureResponse, SignatureShare, SigningCommitments,
    SigningPackage,
};
use redjubjub::{SpendAuth, VerificationKeyBytes};

fn signer1() -> ParticipantId {
    ParticipantId::Signer(1)
}

fn signer2() -> ParticipantId {
    ParticipantId::Signer(2)
}

fn share_package(n: usize) -> SharePackage {
    SharePackage {
        group_public: VerificationKeyBytes::<SpendAuth>::from_bytes([3; 32]),
        secret_share: Secret([4; 32]),
        share_commitment: vec![Commitment([5; 32]); n],
    }
}

fn commitments() -> SigningCommitments {
    SigningCommitments { hiding: Commitment([6; 32]), binding: Commitment([7; 32]) }
}

#[test]
fn validate_version() {
    let header = Header { version: MsgVersion(u8::MAX), sender: ParticipantId::Dealer, receiver: signer1() };
    assert_eq!(header.validate().err(), Some(MsgErr::WrongVersion));
    let header = Header {
        version: MsgVersion(BASIC_FROST_SERIALIZATION),
        sender: ParticipantId::Dealer,
        receiver: signer1(),
    };
    assert_eq!(header.validate().err(), None);
}

#[test]
fn validate_sender_receiver() {
    let header = Header { version: MsgVersion(BASIC_FROST_SERIALIZATION), sender: signer1(), receiver: signer1() };
    assert_eq!(header.validate().err(), Some(MsgErr::SameSenderAndReceiver));
    assert_eq!(create_valid_header(ParticipantId::Signer(0), ParticipantId::Signer(0)).err(), Some(MsgErr::SameSenderAndReceiver));
}

#[test]
fn validate_sharepackage() {
    let payload = Payload::SharePackage(share_package(2));
    assert!(payload.validate().is_ok());
    let message = Message { header: create_valid_header(signer1(), signer2()).unwrap(), payload: payload.clone() };
    assert_eq!(message.validate().err(), Some(MsgErr::SenderMustBeDealer));
    let message = Message {
        header: create_valid_header(ParticipantId::Dealer, ParticipantId::Aggregator).unwrap(),
        payload: payload.clone(),
    };
    assert_eq!(message.validate().err(), Some(MsgErr::ReceiverMustBeSigner));
    let message = Message { header: create_valid_header(ParticipantId::Dealer, signer1()).unwrap(), payload };
    assert!(message.validate().is_ok());

    let payload = Payload::SharePackage(share_package(1));
    assert_eq!(payload.validate().err(), Some(MsgErr::NotEnoughCommitments(constants::MIN_SIGNERS)));
    let payload = Payload::SharePackage(share_package(constants::MAX_SIGNERS + 1));
    assert_eq!(payload.validate().err(), Some(MsgErr::TooManyCommitments));
}

#[test]
fn validate_signingcommitments() {
    let payload = Payload::SigningCommitments(commitments());
    let message = Message { header: create_valid_header(ParticipantId::Aggregator, signer2()).unwrap(), payload: payload.clone() };
    assert_eq!(message.validate().err(), Some(MsgErr::SenderMustBeSigner));
    let message = Message { header: create_valid_header(signer1(), signer2()).unwrap(), payload: payload.clone() };
    assert_eq!(message.validate().err(), Some(MsgErr::ReceiverMustBeAggregator));
    let message = Message { header: create_valid_header(signer1(), ParticipantId::Aggregator).unwrap(), payload };
    assert_eq!(message.validate().err(), None);
}

#[test]
fn validate_signingpackage() {
    let one = SigningPackage { signing_commitments: vec![(signer1(), commitments())], message: b"hola".to_vec() };
    assert_eq!(
        Payload::SigningPackage(one).validate().err(),
        Some(MsgErr::NotEnoughCommitments(constants::MIN_SIGNERS))
    );
    let big = SigningPackage {
        signing_commitments: (0..=254u8).map(|i| (ParticipantId::Signer(i), commitments())).collect(),
        message: b"hola".to_vec(),
    };
    assert_eq!(Payload::SigningPackage(big).validate().err(), Some(MsgErr::TooManyCommitments));
    let dup = SigningPackage {
        signing_commitments: vec![(signer1(), commitments()), (signer1(), commitments())],
        message: b"hola".to_vec(),
    };
    assert_eq!(Payload::SigningPackage(dup).validate().err(), Some(MsgErr::DuplicateSigner));
    let too_long = SigningPackage {
        signing_commitments: vec![(signer1(), commitments()), (signer2(), commitments())],
        message: vec![0u8; constants::MAX_PROTOCOL_MESSAGE_LEN + 1],
    };
    let payload = Payload::SigningPackage(too_long);
    assert_eq!(payload.validate().err(), Some(MsgErr::MsgTooBig));

    let ok = Payload::SigningPackage(SigningPackage {
        signing_commitments: vec![(signer1(), commitments()), (signer2(), commitments())],
        message: b"hola".to_vec(),
    });
    let message = Message { header: create_valid_header(signer1(), signer2()).unwrap(), payload: ok.clone() };
    assert_eq!(message.validate().err(), Some(MsgErr::SenderMustBeAggregator));
    let message = Message { header: create_valid_header(ParticipantId::Aggregator, ParticipantId::Dealer).unwrap(), payload: ok.clone() };
    assert_eq!(message.validate().err(), Some(MsgErr::ReceiverMustBeSigner));
    let message = Message { header: create_valid_header(ParticipantId::Aggregator, signer1()).unwrap(), payload: ok };
    assert_eq!(message.validate().err(), None);
    // The size rule holds for a whole message too.
    let message = Message { header: create_valid_header(ParticipantId::Aggregator, signer1()).unwrap(), payload };
    assert_eq!(message.validate().err(), Some(MsgErr::MsgTooBig));
}

#[test]
fn validate_signatureshare() {
    let payload = Payload::SignatureShare(SignatureShare { signature: SignatureResponse([8; 32]) });
    let message = Message { header: create_valid_header(ParticipantId::Aggregator, signer1()).unwrap(), payload: payload.clone() };
    assert_eq!(message.validate().err(), Some(MsgErr::SenderMustBeSigner));
    let message = Message { header: create_valid_header(signer1(), signer2()).unwrap(), payload: payload.clone() };
    assert_eq!(message.validate().err(), Some(MsgErr::ReceiverMustBeAggregator));
    let message = Message { header: create_valid_header(signer1(), ParticipantId::Aggregator).unwrap(), payload };
    assert_eq!(message.validate().err(), None);
}

#[test]
fn validate_aggregatesignature() {
    let payload = Payload::AggregateSignature(AggregateSignature {
        group_commitment: GroupCommitment([9; 32]),
        schnorr_signature: SignatureResponse([10; 32]),
    });
    let message = Message { header: create_valid_header(signer1(), ParticipantId::Aggregator).unwrap(), payload: payload.clone() };
    assert_eq!(message.validate().err(), Some(MsgErr::SenderMustBeAggregator));
    let message = Message { header: create_valid_header(ParticipantId::Aggregator, ParticipantId::Dealer).unwrap(), payload: payload.clone() };
    assert_eq!(message.validate().err(), Some(MsgErr::ReceiverMustBeSigner));
    let message = Message { header: create_valid_header(ParticipantId::Aggregator, signer1()).unwrap(), payload };
    assert_eq!(message.validate().err(), None);
}

#[test]
fn validation_is_repeatable() {
    let bad = Message {
        header: Header { version: MsgVersion(BASIC_FROST_SERIALIZATION), sender: ParticipantId::Signer(0), receiver: ParticipantId::Signer(0) },
        payload: Payload::SignatureShare(SignatureShare { signature: SignatureResponse([1; 32]) }),
    };
    assert_eq!(bad.validate().err(), Some(MsgErr::SameSenderAndReceiver));
    assert_eq!(bad.validate().err(), Some(MsgErr::SameSenderAndReceiver));
}

#[test]
fn signer_numbers_above_the_maximum_are_rejected() {
    let payload = Payload::SharePackage(share_package(2));
    let message = Message {
        header: create_valid_header(ParticipantId::Dealer, ParticipantId::Signer(254)).unwrap(),
        payload,
    };
    assert_eq!(message.validate().err(), Some(MsgErr::ReceiverMustBeSigner));
    let message = Message {
        header: create_valid_header(ParticipantId::Signer(255), ParticipantId::Aggregator).unwrap(),
        payload: Payload::SigningCommitments(commitments()),
    };
    assert_eq!(message.validate().err(), Some(MsgErr::SenderMustBeSigner));
    let package = SigningPackage {
        signing_commitments: vec![(signer1(), commitments()), (ParticipantId::Dealer, commitments())],
        message: b"hola".to_vec(),
    };
    assert_eq!(Payload::SigningPackage(package).validate().err(), Some(MsgErr::NotASigner));
    let package = SigningPackage {
        signing_commitments: vec![(signer1(), commitments()), (ParticipantId::Signer(254), commitments())],
        message: b"hola".to_vec(),
    };
    assert_eq!(Payload::SigningPackage(package).validate().err(), Some(MsgErr::NotASigner));
}
