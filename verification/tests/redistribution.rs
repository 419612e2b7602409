use synedrion::protocols::ProtocolResult;
use synedrion::sessions::{Error, Fault, PayloadKind, ProtocolFault, ProvableError};
use synedrion::{
    EntryPoint, FinalizeOutcome, KeyRefresh, KeyResharing, KeyShare, LocalError, NewHolder,
    OldHolder, Outgoing, ParticipantSet, Randomness, Session, SignedMessage, SigningKey,
};

const GENERATOR: u64 = 0x9E37_79B9_7F4A_7C15;

fn sorted_keys(secrets: &[u64]) -> (Vec<SigningKey>, Vec<u64>) {
    let mut pairs: Vec<(u64, u64)> =
        secrets.iter().map(|s| (SigningKey::new(*s).verifying_key(), *s)).collect();
    pairs.sort();
    (
        pairs.iter().map(|pair| SigningKey::new(pair.1)).collect(),
        pairs.iter().map(|pair| pair.0).collect(),
    )
}

fn collect(sessions: &mut [Session]) -> Vec<Outgoing> {
    let mut batch = Vec::new();
    for session in sessions.iter_mut() {
        batch.extend(session.outgoing_messages());
    }
    batch
}

fn deliver(ids: &[u64], sessions: &mut [Session], batch: Vec<Outgoing>) {
    for outgoing in batch {
        let at = ids.iter().position(|id| *id == outgoing.recipient).unwrap();
        assert_eq!(sessions[at].add_message(outgoing.message), Ok(()));
    }
}

fn run_round(ids: &[u64], sessions: &mut [Session]) -> Vec<FinalizeOutcome> {
    let payloads = collect(sessions);
    deliver(ids, sessions, payloads);
    let confirmations = collect(sessions);
    deliver(ids, sessions, confirmations);
    assert!(collect(sessions).is_empty());
    sessions
        .iter_mut()
        .map(|session| {
            assert!(session.can_finalize());
            session.finalize()
        })
        .collect()
}

fn key_share(outcome: FinalizeOutcome) -> KeyShare {
    match outcome {
        FinalizeOutcome::Result(ProtocolResult::KeyShare(share)) => share,
        other => panic!("no key share: {:?}", other),
    }
}

fn refresh_sessions(drawn: [[u64; 2]; 3]) -> (Vec<u64>, Vec<Session>, u64) {
    refresh_sessions_with(drawn, 200)
}

/// Starts three sessions. The second party believes its share to be
/// `second_share`; the others know it as 200.
fn refresh_sessions_with(drawn: [[u64; 2]; 3], second_share: u64) -> (Vec<u64>, Vec<Session>, u64) {
    let (keys, ids) = sorted_keys(&[1, 2, 3]);
    let set = ParticipantSet::new(&ids).unwrap();
    let mut shares = KeyShare::new_centralized(&set, &vec![100, 200, 300]).unwrap();
    let mut other = KeyShare::new_centralized(&set, &vec![100, second_share, 300]).unwrap();
    shares[1] = other.remove(1);
    let public_key = shares[0].verifying_key();
    let mut sessions = Vec::new();
    for ((key, share), drawn) in keys.into_iter().zip(shares).zip(drawn) {
        let entry = EntryPoint::KeyRefresh(KeyRefresh::new(share, &set).unwrap());
        let mut randomness = Randomness::from_scalars(drawn.to_vec());
        sessions.push(Session::with_randomness(5, key, &entry, &mut randomness).unwrap());
        assert_eq!(randomness.remaining(), 0);
    }
    (ids, sessions, public_key)
}

#[test]
fn refresh_replaces_the_shares_and_keeps_the_key() {
    let (ids, mut sessions, public_key) = refresh_sessions([[1, 2], [10, 20], [5, 7]]);
    assert_eq!(public_key, 600u64.wrapping_mul(GENERATOR));
    let first = run_round(&ids, &mut sessions);
    assert!(first.iter().all(|outcome| matches!(outcome, FinalizeOutcome::AnotherRound(_))));

    let payloads = collect(&mut sessions);
    assert!(payloads.iter().all(|outgoing| outgoing.message.kind == PayloadKind::Direct));
    deliver(&ids, &mut sessions, payloads);
    assert!(collect(&mut sessions).is_empty());
    let shares: Vec<KeyShare> = sessions
        .iter_mut()
        .map(|session| {
            assert!(session.can_finalize());
            key_share(session.finalize())
        })
        .collect();

    // Parts: party 0 splits 100 into 1, 2, 97; party 1 splits 200 into 10, 20, 170;
    // party 2 splits 300 into 5, 7, 288.
    let expected = [1u64 + 10 + 5, 2 + 20 + 7, 97 + 170 + 288];
    for (i, share) in shares.iter().enumerate() {
        assert_eq!(share.owner(), ids[i]);
        assert_eq!(share.secret_share(), expected[i]);
        assert_eq!(share.verifying_key(), public_key);
        assert_eq!(
            share.public_shares(),
            &expected.iter().map(|x| x.wrapping_mul(GENERATOR)).collect::<Vec<u64>>()
        );
    }
}

#[test]
fn a_part_that_does_not_match_its_announcement_is_a_provable_fault() {
    let (ids, mut sessions, _) = refresh_sessions([[1, 2], [10, 20], [5, 7]]);
    run_round(&ids, &mut sessions);
    let (keys, _) = sorted_keys(&[1, 2, 3]);
    let payloads = collect(&mut sessions);
    let mut tampered = Vec::new();
    for outgoing in payloads {
        if outgoing.message.sender == ids[2] && outgoing.recipient == ids[0] {
            let forged = SignedMessage::seal(
                5,
                2,
                ids[2],
                PayloadKind::Direct,
                6u64.to_le_bytes().to_vec(),
                &keys[2],
            );
            tampered.push(Outgoing { recipient: outgoing.recipient, message: forged });
        } else {
            tampered.push(outgoing);
        }
    }
    deliver(&ids, &mut sessions, tampered);
    assert_eq!(
        match sessions[0].finalize() {
            FinalizeOutcome::Error(error) => Some(error),
            _ => None,
        },
        Some(Error::Provable(ProvableError {
            party: ids[2],
            fault: Fault::Protocol(ProtocolFault::InvalidShare)
        }))
    );
    assert!(matches!(sessions[1].finalize(), FinalizeOutcome::Result(_)));
}

#[test]
fn an_announcement_that_does_not_add_up_is_a_provable_fault() {
    let (ids, mut sessions, _) = refresh_sessions_with([[1, 2], [10, 20], [5, 7]], 201);
    let payloads = collect(&mut sessions);
    deliver(&ids, &mut sessions, payloads);
    let confirmations = collect(&mut sessions);
    deliver(&ids, &mut sessions, confirmations);
    for victim in [0usize, 2] {
        assert_eq!(
            match sessions[victim].finalize() {
                FinalizeOutcome::Error(error) => Some(error),
                _ => None,
            },
            Some(Error::Provable(ProvableError {
                party: ids[1],
                fault: Fault::Protocol(ProtocolFault::InvalidAnnouncement)
            }))
        );
    }
}

#[test]
fn refresh_needs_the_holders_of_the_key() {
    let (_, ids) = sorted_keys(&[1, 2, 3]);
    let set = ParticipantSet::new(&ids).unwrap();
    let others = ParticipantSet::new(&vec![ids[0], ids[1]]).unwrap();
    let share = KeyShare::new_centralized(&set, &vec![1, 2, 3]).unwrap().remove(0);
    assert_eq!(
        KeyRefresh::new(share, &others).err(),
        Some(LocalError::InconsistentAssociatedData)
    );
    let solo = ParticipantSet::new(&vec![ids[0]]).unwrap();
    let share = KeyShare::new_centralized(&solo, &vec![1]).unwrap().remove(0);
    assert_eq!(KeyRefresh::new(share, &solo).err(), Some(LocalError::TooFewParticipants));
}

#[test]
fn resharing_hands_the_key_to_new_holders() {
    // Old holders: the keys 1 and 2. New holders: the keys 2, 3 and 4.
    let (old_keys, old_ids) = sorted_keys(&[1, 2]);
    let (new_keys, new_ids) = sorted_keys(&[2, 3, 4]);
    let both = SigningKey::new(2).verifying_key();
    let old_set = ParticipantSet::new(&old_ids).unwrap();
    let old_shares = KeyShare::new_centralized(&old_set, &vec![40, 60]).unwrap();
    let public_key = old_shares[0].verifying_key();
    let old_public: Vec<u64> = old_shares[0].public_shares().clone();

    let mut ids = Vec::new();
    let mut sessions = Vec::new();
    for (key, share) in old_keys.into_iter().zip(old_shares) {
        let me = key.verifying_key();
        let told = if me == both {
            Some(NewHolder {
                old_holders: ParticipantSet::new(&old_ids).unwrap(),
                old_public_shares: old_public.clone(),
            })
        } else {
            None
        };
        let entry = EntryPoint::KeyResharing(
            KeyResharing::new(
                Some(OldHolder { key_share: share }),
                told,
                ParticipantSet::new(&new_ids).unwrap(),
            )
            .unwrap(),
        );
        let mut randomness = Randomness::from_scalars(vec![3, 4]);
        sessions.push(Session::with_randomness(8, key, &entry, &mut randomness).unwrap());
        ids.push(me);
    }
    for key in new_keys {
        let me = key.verifying_key();
        if me == both {
            continue;
        }
        let entry = EntryPoint::KeyResharing(
            KeyResharing::new(
                None,
                Some(NewHolder {
                    old_holders: ParticipantSet::new(&old_ids).unwrap(),
                    old_public_shares: old_public.clone(),
                }),
                ParticipantSet::new(&new_ids).unwrap(),
            )
            .unwrap(),
        );
        let mut randomness = Randomness::from_scalars(vec![]);
        sessions.push(Session::with_randomness(8, key, &entry, &mut randomness).unwrap());
        ids.push(me);
    }

    let first = run_round(&ids, &mut sessions);
    assert!(first.iter().all(|outcome| matches!(outcome, FinalizeOutcome::AnotherRound(_))));
    let payloads = collect(&mut sessions);
    deliver(&ids, &mut sessions, payloads);
    let mut total = 0u64;
    let mut holders = 0;
    for (id, session) in ids.iter().zip(sessions.iter_mut()) {
        assert!(session.can_finalize());
        match session.finalize() {
            FinalizeOutcome::Result(ProtocolResult::KeyShare(share)) => {
                assert!(new_ids.contains(id));
                assert_eq!(share.owner(), *id);
                assert_eq!(share.holders().to_vec(), new_ids);
                assert_eq!(share.verifying_key(), public_key);
                total = total.wrapping_add(share.secret_share());
                holders += 1;
            }
            FinalizeOutcome::Result(ProtocolResult::NoShare) => {
                assert!(!new_ids.contains(id));
            }
            other => panic!("unexpected outcome: {:?}", other),
        }
    }
    assert_eq!(holders, 3);
    assert_eq!(total, 100);
    assert_eq!(total.wrapping_mul(GENERATOR), public_key);
}

#[test]
fn resharing_rejects_roles_that_do_not_fit_the_data() {
    let (_, old_ids) = sorted_keys(&[1, 2]);
    let (_, new_ids) = sorted_keys(&[3, 4]);
    assert_eq!(
        KeyResharing::new(None, None, ParticipantSet::new(&new_ids).unwrap()).err(),
        Some(LocalError::InconsistentAssociatedData)
    );
    assert_eq!(
        KeyResharing::new(
            None,
            Some(NewHolder {
                old_holders: ParticipantSet::new(&old_ids).unwrap(),
                old_public_shares: vec![1]
            }),
            ParticipantSet::new(&new_ids).unwrap()
        )
        .err(),
        Some(LocalError::InconsistentAssociatedData)
    );
    assert_eq!(
        KeyResharing::new(
            None,
            Some(NewHolder {
                old_holders: ParticipantSet::new(&old_ids).unwrap(),
                old_public_shares: vec![1, 2]
            }),
            ParticipantSet::new(&vec![new_ids[0]]).unwrap()
        )
        .err(),
        Some(LocalError::TooFewParticipants)
    );
    // A party that is neither an old nor a new holder.
    let entry = EntryPoint::KeyResharing(
        KeyResharing::new(
            None,
            Some(NewHolder {
                old_holders: ParticipantSet::new(&old_ids).unwrap(),
                old_public_shares: vec![1, 2],
            }),
            ParticipantSet::new(&new_ids).unwrap(),
        )
        .unwrap(),
    );
    let mut randomness = Randomness::from_scalars(vec![]);
    assert_eq!(
        Session::with_randomness(1, SigningKey::new(77), &entry, &mut randomness).err(),
        Some(LocalError::NotAParticipant)
    );
    // An old holder that does not bring its key share.
    assert_eq!(
        Session::with_randomness(1, SigningKey::new(1), &entry, &mut randomness).err(),
        Some(LocalError::InconsistentAssociatedData)
    );
}
