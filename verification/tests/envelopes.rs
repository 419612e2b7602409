use synedrion::sessions::signed_message::{challenge, verifies};
use synedrion::sessions::{
    AuthenticationError, AuthenticationFault, PayloadKind, SignedMessage, SigningKey,
};

const GENERATOR: u64 = 0x9E37_79B9_7F4A_7C15;
const FNV_OFFSET: u64 = 0xcbf2_9ce4_8422_2325;
const FNV_PRIME: u64 = 0x0000_0100_0000_01b3;

fn sealed(payload: Vec<u8>) -> (SigningKey, SignedMessage) {
    let key = SigningKey::new(0x1234_5678_9abc_def1);
    let sender = key.verifying_key();
    let message = SignedMessage::seal(77, 2, sender, PayloadKind::Broadcast, payload, &key);
    (key, message)
}

fn rejected(sender: u64, fault: AuthenticationFault) -> Result<&'static Vec<u8>, AuthenticationError> {
    Err(AuthenticationError { sender, fault })
}

#[test]
fn sealed_envelope_opens_in_its_session() {
    let (key, message) = sealed(vec![1, 2, 3, 4, 5]);
    assert_eq!(message.sender, key.verifying_key());
    assert_eq!(message.session_id, 77);
    assert_eq!(message.round, 2);
    assert_eq!(message.kind, PayloadKind::Broadcast);
    assert!(message.is_authentic());
    assert_eq!(message.open(77, 2, 3), Ok(&vec![1u8, 2, 3, 4, 5]));
    assert_eq!(message.open(77, 1, 2), Ok(&vec![1u8, 2, 3, 4, 5]));
    assert_eq!(message.open(77, 2, 2), Ok(&vec![1u8, 2, 3, 4, 5]));
    assert_eq!(message.duplicate(), message);
}

#[test]
fn the_signature_is_the_secret_plus_the_challenge() {
    let key = SigningKey::new(1000);
    assert_eq!(key.verifying_key(), 1000u64.wrapping_mul(GENERATOR));
    let absorb = |state: u64, word: u64| (state ^ word).wrapping_mul(FNV_PRIME);
    let header = absorb(absorb(absorb(absorb(FNV_OFFSET, 77), 2), key.verifying_key()), 1);
    let expected = header.wrapping_add(0xaf63_dc4c_8601_ec8c);
    assert_eq!(
        challenge(77, 2, key.verifying_key(), PayloadKind::Direct, 0xaf63_dc4c_8601_ec8c),
        expected
    );
    let message =
        SignedMessage::seal(77, 2, key.verifying_key(), PayloadKind::Direct, b"a".to_vec(), &key);
    assert_eq!(message.signature, expected.wrapping_add(1000));
    assert_eq!(key.sign(5), 1005);
    assert!(verifies(key.verifying_key(), 5, 1005));
    assert!(!verifies(key.verifying_key(), 5, 1006));
    assert!(!verifies(key.verifying_key(), 6, 1005));
    assert!(!verifies(key.verifying_key().wrapping_add(1), 5, 1005));
}

#[test]
fn tampering_with_any_single_byte_is_detected() {
    let (_, message) = sealed(vec![10, 20, 30, 40, 50, 60, 70, 80]);
    for at in 0..message.payload.len() {
        for delta in 1..=255u8 {
            let mut forged = message.clone();
            forged.payload[at] = forged.payload[at].wrapping_add(delta);
            assert!(!forged.is_authentic());
            assert_eq!(
                forged.open(77, 1, 3),
                rejected(message.sender, AuthenticationFault::InvalidSignature)
            );
        }
    }
}

#[test]
fn an_envelope_of_another_session_is_rejected() {
    let (_, message) = sealed(vec![1]);
    assert_eq!(message.open(78, 2, 2), rejected(message.sender, AuthenticationFault::SessionMismatch));
    assert_eq!(message.open(0, 0, 9), rejected(message.sender, AuthenticationFault::SessionMismatch));
    // The session is examined first, whatever else is wrong.
    let mut forged = message.clone();
    forged.signature ^= 1;
    assert_eq!(forged.open(78, 5, 6), rejected(message.sender, AuthenticationFault::SessionMismatch));
}

#[test]
fn an_envelope_outside_the_accepted_rounds_is_rejected() {
    let (_, message) = sealed(vec![1]);
    assert_eq!(message.open(77, 3, 4), rejected(message.sender, AuthenticationFault::RoundOutOfRange));
    assert_eq!(message.open(77, 1, 1), rejected(message.sender, AuthenticationFault::RoundOutOfRange));
    assert_eq!(message.open(77, 3, 1), rejected(message.sender, AuthenticationFault::RoundOutOfRange));
    // The round is examined before the signature.
    let mut forged = message.clone();
    forged.signature ^= 1;
    assert_eq!(forged.open(77, 3, 4), rejected(message.sender, AuthenticationFault::RoundOutOfRange));
}

#[test]
fn a_signature_covers_every_field() {
    let (_, message) = sealed(vec![1, 2, 3]);
    let mut forged = message.clone();
    forged.signature = forged.signature.wrapping_add(1);
    assert_eq!(forged.open(77, 2, 2), rejected(message.sender, AuthenticationFault::InvalidSignature));

    let mut forged = message.clone();
    forged.kind = PayloadKind::Direct;
    assert_eq!(forged.open(77, 2, 2), rejected(message.sender, AuthenticationFault::InvalidSignature));

    let mut forged = message.clone();
    forged.round = 1;
    assert_eq!(forged.open(77, 1, 2), rejected(message.sender, AuthenticationFault::InvalidSignature));

    let mut forged = message.clone();
    forged.sender = SigningKey::new(5).verifying_key();
    assert_eq!(forged.open(77, 2, 2), rejected(forged.sender, AuthenticationFault::InvalidSignature));

    let mut forged = message.clone();
    forged.session_id = 78;
    assert_eq!(forged.open(78, 2, 2), rejected(message.sender, AuthenticationFault::InvalidSignature));
}

#[test]
fn sealing_under_a_foreign_identity_does_not_open() {
    let key = SigningKey::new(11);
    let other = SigningKey::new(12).verifying_key();
    let message = SignedMessage::seal(1, 1, other, PayloadKind::Broadcast, vec![1], &key);
    assert_eq!(message.open(1, 1, 1), rejected(other, AuthenticationFault::InvalidSignature));
}

#[test]
fn an_envelope_has_one_form_on_the_wire() {
    let message = SignedMessage {
        session_id: 0x0102_0304_0506_0708,
        round: 0x0a0b_0c0d,
        sender: 0x1112_1314_1516_1718,
        kind: PayloadKind::Confirmation,
        payload: vec![0xaa, 0xbb, 0xcc],
        signature: 0x2122_2324_2526_2728,
    };
    let bytes = message.to_bytes();
    assert_eq!(
        bytes,
        vec![
            8, 7, 6, 5, 4, 3, 2, 1, // session
            0x0d, 0x0c, 0x0b, 0x0a, // round
            0x18, 0x17, 0x16, 0x15, 0x14, 0x13, 0x12, 0x11, // sender
            2,    // category
            0x28, 0x27, 0x26, 0x25, 0x24, 0x23, 0x22, 0x21, // signature
            0xaa, 0xbb, 0xcc, // payload
        ]
    );
    assert_eq!(SignedMessage::from_bytes(&bytes), Some(message));
    let (_, sealed) = sealed(vec![]);
    assert_eq!(sealed.to_bytes().len(), 29);
    let read = SignedMessage::from_bytes(&sealed.to_bytes()).unwrap();
    assert_eq!(read, sealed);
    assert_eq!(read.open(77, 2, 2), Ok(&vec![]));
}

#[test]
fn bytes_with_a_field_missing_or_an_unknown_category_hold_no_envelope() {
    let (_, message) = sealed(vec![1, 2, 3]);
    let bytes = message.to_bytes();
    for len in 0..29 {
        assert_eq!(SignedMessage::from_bytes(&bytes[..len].to_vec()), None);
    }
    assert_eq!(
        SignedMessage::from_bytes(&bytes[..29].to_vec()).map(|m| m.payload),
        Some(vec![])
    );
    for tag in 3..=255u8 {
        let mut unknown = bytes.clone();
        unknown[20] = tag;
        assert_eq!(SignedMessage::from_bytes(&unknown), None);
    }
    let mut direct = bytes.clone();
    direct[20] = 1;
    let read = SignedMessage::from_bytes(&direct).unwrap();
    assert_eq!(read.kind, PayloadKind::Direct);
    assert!(!read.is_authentic());
}
