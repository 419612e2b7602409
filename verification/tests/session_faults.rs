use synedrion::sessions::signed_message::challenge;
use synedrion::sessions::{
    AuthenticationFault, Error, Fault, PayloadKind, ProvableError, RemoteError, RemoteErrorEnum,
};
use synedrion::tools::hashing::digest;
use synedrion::{
    EntryPoint, FinalizeOutcome, KeyInit, KeyRefresh, KeyShare, LocalError, Outgoing,
    ParticipantSet, Randomness, Session, SignedMessage, SigningKey,
};

const SESSION: u64 = 21;

fn keys() -> Vec<SigningKey> {
    let mut keys = vec![SigningKey::new(101), SigningKey::new(202), SigningKey::new(303)];
    keys.sort_by_key(|key| key.verifying_key());
    keys
}

fn ids() -> Vec<u64> {
    keys().iter().map(|key| key.verifying_key()).collect()
}

fn start() -> Vec<Session> {
    keys()
        .into_iter()
        .zip([11u64, 22, 33])
        .map(|(key, secret)| {
            let entry =
                EntryPoint::KeyInit(KeyInit::new(ParticipantSet::new(&ids()).unwrap()).unwrap());
            let mut randomness = Randomness::from_scalars(vec![secret]);
            Session::with_randomness(SESSION, key, &entry, &mut randomness).unwrap()
        })
        .collect()
}

fn collect(sessions: &mut [Session]) -> Vec<Outgoing> {
    let mut batch = Vec::new();
    for session in sessions.iter_mut() {
        batch.extend(session.outgoing_messages());
    }
    batch
}

fn deliver(sessions: &mut [Session], batch: Vec<Outgoing>) {
    let ids = ids();
    for outgoing in batch {
        let at = ids.iter().position(|id| *id == outgoing.recipient).unwrap();
        assert_eq!(sessions[at].add_message(outgoing.message), Ok(()));
    }
}

fn remote(party: u64, error: RemoteErrorEnum) -> Result<(), Error> {
    Err(Error::Remote(RemoteError { party, error }))
}

fn provable(party: u64, fault: Fault) -> Result<(), Error> {
    Err(Error::Provable(ProvableError { party, fault }))
}

fn from(sender: usize, batch: &[Outgoing], recipient: usize) -> SignedMessage {
    let ids = ids();
    batch
        .iter()
        .find(|o| o.message.sender == ids[sender] && o.recipient == ids[recipient])
        .unwrap()
        .message
        .clone()
}

#[test]
fn envelopes_that_do_not_open_leave_no_trace() {
    let mut sessions = start();
    let batch = collect(&mut sessions);
    let genuine = from(1, &batch, 0);

    let mut forged = genuine.clone();
    forged.payload[0] ^= 1;
    assert_eq!(
        sessions[0].add_message(forged),
        provable(ids()[1], Fault::Authentication(AuthenticationFault::InvalidSignature))
    );
    let mut foreign = genuine.clone();
    foreign.session_id = SESSION + 1;
    assert_eq!(
        sessions[0].add_message(foreign),
        provable(ids()[1], Fault::Authentication(AuthenticationFault::SessionMismatch))
    );
    for round in [0u32, 3, 7] {
        let late = SignedMessage::seal(
            SESSION,
            round,
            ids()[1],
            PayloadKind::Broadcast,
            vec![0; 8],
            &keys()[1],
        );
        assert_eq!(
            sessions[0].add_message(late),
            provable(ids()[1], Fault::Authentication(AuthenticationFault::RoundOutOfRange))
        );
    }
    let early_confirmation = SignedMessage::seal(
        SESSION,
        2,
        ids()[1],
        PayloadKind::Confirmation,
        vec![0; 48],
        &keys()[1],
    );
    assert_eq!(
        sessions[0].add_message(early_confirmation),
        provable(ids()[1], Fault::Authentication(AuthenticationFault::RoundOutOfRange))
    );
    assert_eq!(sessions[0].transcript_len(), 0);
    assert!(sessions[0].evidence(ids()[1]).is_empty());
    assert_eq!(sessions[0].add_message(genuine), Ok(()));
    assert_eq!(sessions[0].transcript_len(), 1);
}

#[test]
fn unexpected_envelopes_are_turned_away_but_recorded() {
    let mut sessions = start();
    let batch = collect(&mut sessions);

    let outsider = SigningKey::new(999);
    let stray = SignedMessage::seal(
        SESSION,
        1,
        outsider.verifying_key(),
        PayloadKind::Broadcast,
        vec![0; 8],
        &outsider,
    );
    assert_eq!(
        sessions[0].add_message(stray),
        remote(outsider.verifying_key(), RemoteErrorEnum::UnexpectedSender)
    );
    let own = from(0, &batch, 1);
    assert_eq!(sessions[0].add_message(own), remote(ids()[0], RemoteErrorEnum::UnexpectedSender));

    let direct =
        SignedMessage::seal(SESSION, 1, ids()[1], PayloadKind::Direct, vec![0; 8], &keys()[1]);
    assert_eq!(
        sessions[0].add_message(direct),
        remote(ids()[1], RemoteErrorEnum::UnexpectedMessage)
    );

    assert_eq!(sessions[0].add_message(from(1, &batch, 0)), Ok(()));
    assert_eq!(
        sessions[0].add_message(from(1, &batch, 0)),
        remote(ids()[1], RemoteErrorEnum::DuplicateMessage)
    );
    let other =
        SignedMessage::seal(SESSION, 1, ids()[1], PayloadKind::Broadcast, vec![9; 8], &keys()[1]);
    assert_eq!(sessions[0].add_message(other), remote(ids()[1], RemoteErrorEnum::DuplicateMessage));

    assert_eq!(sessions[0].transcript_len(), 6);
    let evidence = sessions[0].evidence(ids()[1]);
    assert_eq!(evidence.len(), 4);
    assert!(evidence.iter().all(|m| m.sender == ids()[1] && m.is_authentic()));
    assert_eq!(evidence[1], from(1, &batch, 0));
    assert_eq!(sessions[0].evidence(outsider.verifying_key()).len(), 1);
    assert!(!sessions[0].can_finalize());
}

#[test]
fn confirmations_must_decode_and_be_backed_by_signatures() {
    let mut sessions = start();
    let payloads = collect(&mut sessions);
    deliver(&mut sessions, payloads);
    let confirmations = collect(&mut sessions);
    let genuine = from(1, &confirmations, 0);
    assert_eq!(genuine.kind, PayloadKind::Confirmation);
    assert_eq!(genuine.payload.len(), 48);

    for bad in [vec![], vec![0u8; 47], vec![0u8; 32], vec![0u8; 64]] {
        let garbled = SignedMessage::seal(
            SESSION,
            1,
            ids()[1],
            PayloadKind::Confirmation,
            bad,
            &keys()[1],
        );
        assert_eq!(
            sessions[0].add_message(garbled),
            provable(ids()[1], Fault::CannotDeserialize)
        );
    }

    // A report about the third party with a digest it never signed.
    let mut accused = genuine.payload.clone();
    accused[32] ^= 1;
    let accusation = SignedMessage::seal(
        SESSION,
        1,
        ids()[1],
        PayloadKind::Confirmation,
        accused,
        &keys()[1],
    );
    assert_eq!(
        sessions[0].add_message(accusation),
        remote(ids()[1], RemoteErrorEnum::UnsubstantiatedClaim)
    );
    assert!(!sessions[0].can_finalize());

    assert_eq!(sessions[0].add_message(genuine.clone()), Ok(()));
    assert_eq!(
        sessions[0].add_message(genuine),
        remote(ids()[1], RemoteErrorEnum::DuplicateMessage)
    );
    let outsider = SigningKey::new(999);
    let stray = SignedMessage::seal(
        SESSION,
        1,
        outsider.verifying_key(),
        PayloadKind::Confirmation,
        vec![0; 48],
        &outsider,
    );
    assert_eq!(
        sessions[0].add_message(stray),
        remote(outsider.verifying_key(), RemoteErrorEnum::UnexpectedSender)
    );
}

#[test]
fn a_confirmation_lists_digest_and_signature_of_every_broadcast() {
    let mut sessions = start();
    let payloads = collect(&mut sessions);
    let ids = ids();
    let expected: Vec<u8> = (0..3)
        .flat_map(|p| {
            let recipient = if p == 0 { 1 } else { 0 };
            let message = from(p, &payloads, recipient);
            let d = digest(&message.payload);
            assert_eq!(
                message.signature,
                keys()[p].sign(challenge(SESSION, 1, ids[p], PayloadKind::Broadcast, d))
            );
            let mut bytes = d.to_le_bytes().to_vec();
            bytes.extend(message.signature.to_le_bytes());
            bytes
        })
        .collect();
    deliver(&mut sessions, payloads);
    let confirmations = collect(&mut sessions);
    assert_eq!(confirmations.len(), 6);
    for outgoing in &confirmations {
        assert_eq!(outgoing.message.payload, expected);
        assert_eq!(outgoing.message.round, 1);
        assert!(outgoing.message.is_authentic());
        assert_ne!(outgoing.recipient, outgoing.message.sender);
    }
}

#[test]
fn a_confirmation_has_no_place_in_a_round_of_direct_messages() {
    let ids = ids();
    let set = ParticipantSet::new(&ids).unwrap();
    let shares = KeyShare::new_centralized(&set, &vec![100, 200, 300]).unwrap();
    let mut sessions: Vec<Session> = keys()
        .into_iter()
        .zip(shares)
        .map(|(key, share)| {
            let entry = EntryPoint::KeyRefresh(KeyRefresh::new(share, &set).unwrap());
            let mut randomness = Randomness::from_scalars(vec![1, 2]);
            Session::with_randomness(SESSION, key, &entry, &mut randomness).unwrap()
        })
        .collect();
    let payloads = collect(&mut sessions);
    deliver(&mut sessions, payloads);
    let confirmations = collect(&mut sessions);
    deliver(&mut sessions, confirmations);
    for session in sessions.iter_mut() {
        assert!(matches!(session.finalize(), FinalizeOutcome::AnotherRound(_)));
    }
    let confirmation = SignedMessage::seal(
        SESSION,
        2,
        ids[1],
        PayloadKind::Confirmation,
        vec![0; 48],
        &keys()[1],
    );
    assert_eq!(
        sessions[0].add_message(confirmation),
        remote(ids[1], RemoteErrorEnum::UnexpectedMessage)
    );
    let broadcast =
        SignedMessage::seal(SESSION, 2, ids[1], PayloadKind::Broadcast, vec![0; 8], &keys()[1]);
    assert_eq!(
        sessions[0].add_message(broadcast),
        remote(ids[1], RemoteErrorEnum::UnexpectedMessage)
    );
}

#[test]
fn payloads_of_the_next_round_are_held_until_it_starts() {
    let mut sessions = start();
    let payloads = collect(&mut sessions);
    deliver(&mut sessions, payloads);
    let confirmations = collect(&mut sessions);
    // The first party is slow: the others finish the round before it gets
    // their confirmations.
    let mut held = Vec::new();
    for outgoing in confirmations {
        if outgoing.recipient == ids()[0] {
            held.push(outgoing);
        } else {
            deliver(&mut sessions, vec![outgoing]);
        }
    }
    for at in [1usize, 2] {
        assert!(sessions[at].can_finalize());
        assert!(matches!(sessions[at].finalize(), FinalizeOutcome::AnotherRound(_)));
    }
    assert!(!sessions[0].can_finalize());
    let early = collect(&mut sessions[1..]);
    assert!(early.iter().all(|outgoing| outgoing.message.round == 2));
    deliver(&mut sessions, early);
    assert!(!sessions[0].can_finalize());
    assert_eq!(sessions[0].round().index(), 1);
    deliver(&mut sessions, held);
    assert!(sessions[0].can_finalize());
    assert!(matches!(sessions[0].finalize(), FinalizeOutcome::AnotherRound(_)));
    // The payloads that came early are there; only confirmations are missing.
    let own = collect(&mut sessions);
    assert!(own.iter().all(|o| o.message.kind == PayloadKind::Broadcast
        && o.message.sender == ids()[0]
        && o.message.round == 2));
    assert_eq!(own.len(), 2);
    deliver(&mut sessions, own);
    let confirmations = collect(&mut sessions);
    assert_eq!(confirmations.len(), 6);
    deliver(&mut sessions, confirmations);
    for session in sessions.iter_mut() {
        assert!(matches!(session.finalize(), FinalizeOutcome::Result(_)));
    }
}

#[test]
fn the_order_of_delivery_does_not_matter() {
    let mut sessions = start();
    let mut payloads = collect(&mut sessions);
    payloads.reverse();
    deliver(&mut sessions, payloads);
    let mut confirmations = collect(&mut sessions);
    confirmations.rotate_left(3);
    deliver(&mut sessions, confirmations);
    for session in sessions.iter_mut() {
        assert!(matches!(session.finalize(), FinalizeOutcome::AnotherRound(_)));
    }
}

#[test]
fn batches_are_handed_out_once() {
    let mut sessions = start();
    let payloads = sessions[0].outgoing_messages();
    assert_eq!(payloads.len(), 2);
    assert_eq!(
        payloads.iter().map(|o| o.recipient).collect::<Vec<u64>>(),
        vec![ids()[1], ids()[2]]
    );
    assert!(payloads.iter().all(|o| o.message.sender == ids()[0]
        && o.message.session_id == SESSION
        && o.message.round == 1
        && o.message.kind == PayloadKind::Broadcast));
    assert_eq!(payloads[0].message, payloads[1].message);
    assert!(sessions[0].outgoing_messages().is_empty());
    assert!(sessions[0].outgoing_messages().is_empty());
}

#[test]
fn a_finished_session_takes_nothing_and_gives_nothing() {
    let mut sessions = start();
    for _ in 0..2 {
        let payloads = collect(&mut sessions);
        deliver(&mut sessions, payloads);
        let confirmations = collect(&mut sessions);
        deliver(&mut sessions, confirmations);
        for session in sessions.iter_mut() {
            session.finalize();
        }
    }
    assert!(sessions[0].is_finished());
    assert!(!sessions[0].can_finalize());
    assert!(matches!(
        sessions[0].finalize(),
        FinalizeOutcome::Error(Error::Local(LocalError::SessionFinished))
    ));
    let late = SignedMessage::seal(SESSION, 2, ids()[1], PayloadKind::Broadcast, vec![], &keys()[1]);
    let recorded = sessions[0].transcript_len();
    assert_eq!(sessions[0].add_message(late), Err(Error::Local(LocalError::SessionFinished)));
    assert_eq!(sessions[0].transcript_len(), recorded);
    assert!(sessions[0].outgoing_messages().is_empty());
    assert_eq!(sessions[0].session_id(), SESSION);
}

#[test]
fn a_session_belongs_to_the_holder_of_its_key() {
    let entry = KeyInit::new(ParticipantSet::new(&ids()).unwrap()).unwrap();
    let round = entry.first_round(ids()[0], &mut Randomness::from_scalars(vec![1])).unwrap();
    let thief = keys().into_iter().nth(1).unwrap();
    assert_eq!(Session::from_round(SESSION, thief, round).err(), Some(LocalError::NotAParticipant));
    let round = entry.first_round(ids()[0], &mut Randomness::from_scalars(vec![1])).unwrap();
    let owner = keys().into_iter().next().unwrap();
    assert!(Session::from_round(SESSION, owner, round).is_ok());
}

#[test]
fn errors_know_their_class_and_their_party() {
    let local = Error::Local(LocalError::NotReady);
    assert!(!local.is_provable());
    assert_eq!(local.party(), None);
    let accusation =
        Error::Remote(RemoteError { party: 5, error: RemoteErrorEnum::UnsubstantiatedClaim });
    assert!(!accusation.is_provable());
    assert_eq!(accusation.party(), Some(5));
    let fault = Error::from_authentication(synedrion::sessions::AuthenticationError {
        sender: 6,
        fault: AuthenticationFault::InvalidSignature,
    });
    assert!(fault.is_provable());
    assert_eq!(fault.party(), Some(6));
    assert_eq!(
        fault,
        Error::Provable(ProvableError {
            party: 6,
            fault: Fault::Authentication(AuthenticationFault::InvalidSignature)
        })
    );
}
