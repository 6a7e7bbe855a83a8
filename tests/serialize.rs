use redjubjub::messages::constants::BASIC_FROST_SERIALIZATION;
use redjubjub::messages::validate::{create_valid_header, Validate};
use redjubjub::messages::{
    AggregateSignature, Commitment, GroupCommitment, Message, ParticipantId, Payload, Secret,
    SharePackage, SignatureResponse, SignatureShare, SigningCommitments, SigningPackage,
};
use redjubjub::{SpendAuth, VerificationKeyBytes};

fn round_trip(message: &Message) -> Vec<u8> {
    let bytes = message.encode();
    let decoded = Message::decode(&bytes).expect("a message decodes from its encoding");
    assert_eq!(decoded.encode(), bytes);
    assert_eq!(decoded.header, message.header);
    bytes
}

#[test]
fn serialize_sharepackage() {
    let message = Message {
        header: create_valid_header(ParticipantId::Dealer, ParticipantId::Signer(1)).unwrap(),
        payload: Payload::SharePackage(SharePackage {
            group_public: VerificationKeyBytes::<SpendAuth>::from_bytes([1; 32]),
            secret_share: Secret([2; 32]),
            share_commitment: vec![Commitment([3; 32]), Commitment([4; 32])],
        }),
    };
    let bytes = round_trip(&message);
    let mut expected = vec![BASIC_FROST_SERIALIZATION, 0xfe, 1, 0];
    expected.extend_from_slice(&[1; 32]);
    expected.extend_from_slice(&[2; 32]);
    expected.extend_from_slice(&[2, 0, 0, 0, 0, 0, 0, 0]);
    expected.extend_from_slice(&[3; 32]);
    expected.extend_from_slice(&[4; 32]);
    assert_eq!(bytes, expected);
    let decoded = Message::decode(&bytes).unwrap();
    match decoded.payload {
        Payload::SharePackage(sp) => {
            assert_eq!(sp.group_public.bytes, [1; 32]);
            assert_eq!(sp.secret_share, Secret([2; 32]));
            assert_eq!(sp.share_commitment, vec![Commitment([3; 32]), Commitment([4; 32])]);
        }
        _ => panic!("wrong payload type"),
    }
}

#[test]
fn serialize_signingcommitments() {
    let message = Message {
        header: create_valid_header(ParticipantId::Signer(1), ParticipantId::Aggregator).unwrap(),
        payload: Payload::SigningCommitments(SigningCommitments {
            hiding: Commitment([5; 32]),
            binding: Commitment([6; 32]),
        }),
    };
    let bytes = round_trip(&message);
    assert_eq!(bytes.len(), 4 + 64);
    assert_eq!(bytes[0..4], [0, 1, 0xff, 1]);
    assert_eq!(bytes[4..36], [5; 32]);
    assert_eq!(bytes[36..68], [6; 32]);
}

#[test]
fn serialize_signingpackage() {
    let c1 = SigningCommitments { hiding: Commitment([7; 32]), binding: Commitment([8; 32]) };
    let c2 = SigningCommitments { hiding: Commitment([9; 32]), binding: Commitment([10; 32]) };
    let message = Message {
        header: create_valid_header(ParticipantId::Aggregator, ParticipantId::Signer(1)).unwrap(),
        payload: Payload::SigningPackage(SigningPackage {
            signing_commitments: vec![(ParticipantId::Signer(1), c1), (ParticipantId::Signer(2), c2)],
            message: "hola".as_bytes().to_vec(),
        }),
    };
    let bytes = round_trip(&message);
    assert_eq!(bytes[0..4], [0, 0xff, 1, 2]);
    assert_eq!(bytes[4..12], [2, 0, 0, 0, 0, 0, 0, 0]);
    assert_eq!(bytes[12], 1);
    assert_eq!(bytes[13..45], [7; 32]);
    assert_eq!(bytes[45..77], [8; 32]);
    assert_eq!(bytes[77], 2);
    assert_eq!(bytes[bytes.len() - 12..bytes.len() - 4], [4, 0, 0, 0, 0, 0, 0, 0]);
    assert_eq!(&bytes[bytes.len() - 4..], "hola".as_bytes());
    match Message::decode(&bytes).unwrap().payload {
        Payload::SigningPackage(sp) => {
            assert_eq!(sp.signing_commitments, vec![(ParticipantId::Signer(1), c1), (ParticipantId::Signer(2), c2)]);
            assert_eq!(sp.message, "hola".as_bytes().to_vec());
        }
        _ => panic!("wrong payload type"),
    }
}

#[test]
fn serialize_signatureshare() {
    let message = Message {
        header: create_valid_header(ParticipantId::Signer(1), ParticipantId::Aggregator).unwrap(),
        payload: Payload::SignatureShare(SignatureShare { signature: SignatureResponse([11; 32]) }),
    };
    let bytes = round_trip(&message);
    assert_eq!(bytes[0..4], [0, 1, 0xff, 3]);
    assert_eq!(bytes.len(), 36);
}

#[test]
fn serialize_aggregatesignature() {
    let message = Message {
        header: create_valid_header(ParticipantId::Aggregator, ParticipantId::Signer(1)).unwrap(),
        payload: Payload::AggregateSignature(AggregateSignature {
            group_commitment: GroupCommitment([12; 32]),
            schnorr_signature: SignatureResponse([13; 32]),
        }),
    };
    let bytes = round_trip(&message);
    assert_eq!(bytes[0..4], [0, 0xff, 1, 4]);
    assert_eq!(bytes[4..36], [12; 32]);
    assert_eq!(bytes[36..68], [13; 32]);
    let decoded = Message::decode(&bytes).unwrap();
    assert!(decoded.validate().is_ok());
}

#[test]
fn decode_rejects_truncated_and_trailing_bytes() {
    let message = Message {
        header: create_valid_header(ParticipantId::Signer(1), ParticipantId::Aggregator).unwrap(),
        payload: Payload::SignatureShare(SignatureShare { signature: SignatureResponse([11; 32]) }),
    };
    let mut bytes = message.encode();
    assert!(Message::decode(&bytes[..bytes.len() - 1]).is_none());
    bytes.push(0);
    assert!(Message::decode(&bytes).is_none());
    assert!(Message::decode(&[0, 1, 0xff, 9]).is_none());
}

#[test]
fn participant_bytes() {
    assert_eq!(ParticipantId::Dealer.to_byte(), 0xfe);
    assert_eq!(ParticipantId::Aggregator.to_byte(), 0xff);
    assert_eq!(ParticipantId::Signer(0).to_byte(), 0);
    assert_eq!(ParticipantId::from_byte(0xfe), ParticipantId::Dealer);
    assert_eq!(ParticipantId::from_byte(0xff), ParticipantId::Aggregator);
    assert_eq!(ParticipantId::from_byte(253), ParticipantId::Signer(253));
}
