use rand_core::OsRng;
use synedrion::protocols::ProtocolResult;
use synedrion::{
    AuxGen, AuxInfo, EntryPoint, FinalizeOutcome, InteractiveSigning, KeyInit, KeyResharing,
    KeyShare, LocalError, NewHolder, ParticipantSet, Randomness, Session, SigningKey,
};

fn run_sync(mut sessions: Vec<Session>) -> Vec<ProtocolResult> {
    let ids: Vec<u64> = sessions.iter().map(|session| session.round().parties().me()).collect();
    let mut results: Vec<Option<ProtocolResult>> = sessions.iter().map(|_| None).collect();
    while !sessions.iter().all(|session| session.is_finished()) {
        let mut queue = Vec::new();
        for session in sessions.iter_mut() {
            queue.extend(session.outgoing_messages());
        }
        let mut progress = !queue.is_empty();
        for outgoing in queue {
            let at = ids.iter().position(|id| *id == outgoing.recipient).unwrap();
            assert_eq!(sessions[at].add_message(outgoing.message), Ok(()));
        }
        for (at, session) in sessions.iter_mut().enumerate() {
            if session.can_finalize() {
                progress = true;
                match session.finalize() {
                    FinalizeOutcome::Result(result) => results[at] = Some(result),
                    FinalizeOutcome::AnotherRound(_) => {}
                    FinalizeOutcome::Error(error) => panic!("run failed: {:?}", error),
                }
            }
        }
        assert!(progress);
    }
    results.into_iter().map(|result| result.unwrap()).collect()
}

fn signers(count: usize) -> (Vec<SigningKey>, Vec<u64>) {
    let keys: Vec<SigningKey> =
        (0..count).map(|_| SigningKey::random(&mut OsRng).unwrap()).collect();
    let ids = keys.iter().map(|key| key.verifying_key()).collect();
    (keys, ids)
}

#[test]
fn test_key_init() {
    let (keys, ids) = signers(2);
    let sessions = keys
        .into_iter()
        .map(|key| {
            let entry =
                EntryPoint::KeyInit(KeyInit::new(ParticipantSet::new(&ids).unwrap()).unwrap());
            Session::new(&mut OsRng, 1, key, &entry).unwrap()
        })
        .collect();
    let results = run_sync(sessions);
    assert_eq!(results.len(), 2);
    let keys: Vec<u64> = results
        .iter()
        .map(|result| match result {
            ProtocolResult::KeyShare(share) => share.verifying_key(),
            other => panic!("no key share: {:?}", other),
        })
        .collect();
    assert_eq!(keys[0], keys[1]);
}

#[test]
fn test_aux_gen() {
    let (keys, ids) = signers(2);
    let sessions = keys
        .into_iter()
        .map(|key| {
            let entry =
                EntryPoint::AuxGen(AuxGen::new(ParticipantSet::new(&ids).unwrap()).unwrap());
            Session::new(&mut OsRng, 1, key, &entry).unwrap()
        })
        .collect();
    let results = run_sync(sessions);
    let public: Vec<Vec<u64>> = results
        .iter()
        .map(|result| match result {
            ProtocolResult::AuxInfo(aux) => aux.public_aux().clone(),
            other => panic!("no auxiliary data: {:?}", other),
        })
        .collect();
    assert_eq!(public[0], public[1]);
    assert_eq!(public[0].len(), 2);
}

#[test]
fn test_interactive_signing() {
    let (keys, ids) = signers(2);
    let set = ParticipantSet::new(&ids).unwrap();
    let mut randomness = Randomness::from_os(&mut OsRng, 4).unwrap();
    let secrets = vec![randomness.take().unwrap(), randomness.take().unwrap()];
    let aux_secrets = vec![randomness.take().unwrap(), randomness.take().unwrap()];
    let mut shares: Vec<Option<KeyShare>> =
        KeyShare::new_centralized(&set, &secrets).unwrap().into_iter().map(Some).collect();
    let mut auxes: Vec<Option<AuxInfo>> =
        AuxInfo::new_centralized(&set, &aux_secrets).unwrap().into_iter().map(Some).collect();
    let public_key = shares[0].as_ref().unwrap().verifying_key();
    let message = Randomness::from_os(&mut OsRng, 4)
        .unwrap()
        .take_many(4)
        .unwrap()
        .iter()
        .flat_map(|word| word.to_le_bytes())
        .collect::<Vec<u8>>();
    assert_eq!(message.len(), 32);
    let sessions = keys
        .into_iter()
        .map(|key| {
            let at = set.position(key.verifying_key()).unwrap();
            let entry = EntryPoint::InteractiveSigning(
                InteractiveSigning::new(
                    message.clone(),
                    shares[at].take().unwrap(),
                    auxes[at].take().unwrap(),
                )
                .unwrap(),
            );
            Session::new(&mut OsRng, 1, key, &entry).unwrap()
        })
        .collect();
    let results = run_sync(sessions);
    let signatures: Vec<_> = results
        .iter()
        .map(|result| match result {
            ProtocolResult::Signature(signature) => *signature,
            other => panic!("no signature: {:?}", other),
        })
        .collect();
    assert_eq!(signatures[0], signatures[1]);
    assert!(signatures[0].verify(public_key, &message));
}

#[test]
fn a_party_that_is_turned_away_fails_whatever_is_drawn() {
    let (_, ids) = signers(3);
    let entry = EntryPoint::KeyInit(KeyInit::new(ParticipantSet::new(&ids).unwrap()).unwrap());
    let outsider = SigningKey::new(12345);
    assert_eq!(entry.admission(outsider.verifying_key()), Some(LocalError::NotAParticipant));
    assert_eq!(entry.admission(ids[0]), None);
    assert_eq!(entry.randomness_needed(ids[0]), 1);
    assert_eq!(
        Session::new(&mut OsRng, 1, outsider, &entry).err(),
        Some(LocalError::NotAParticipant)
    );
}

#[test]
fn a_party_that_needs_no_randomness_always_gets_its_session() {
    let old_key_secrets = [1u64, 2];
    let mut old_ids: Vec<u64> =
        old_key_secrets.iter().map(|s| SigningKey::new(*s).verifying_key()).collect();
    old_ids.sort();
    let newcomer = SigningKey::new(3);
    let other = SigningKey::new(4);
    let new_ids = vec![newcomer.verifying_key(), other.verifying_key()];
    let entry = EntryPoint::KeyResharing(
        KeyResharing::new(
            None,
            Some(NewHolder {
                old_holders: ParticipantSet::new(&old_ids).unwrap(),
                old_public_shares: vec![10, 20],
            }),
            ParticipantSet::new(&new_ids).unwrap(),
        )
        .unwrap(),
    );
    assert_eq!(entry.admission(newcomer.verifying_key()), None);
    assert_eq!(entry.randomness_needed(newcomer.verifying_key()), 0);
    let session = Session::new(&mut OsRng, 5, newcomer, &entry).unwrap();
    assert_eq!(session.round().index(), 1);
    assert_eq!(session.round().expected_senders(), old_ids);
    assert!(Randomness::from_os(&mut OsRng, 0).is_ok());
}

#[test]
fn fresh_session_identifiers_differ() {
    let a = Session::fresh_id(&mut OsRng).unwrap();
    let b = Session::fresh_id(&mut OsRng).unwrap();
    assert_ne!(a, b);
}

#[test]
fn drawn_randomness_has_the_length_asked_for() {
    for count in [0usize, 1, 5, 64] {
        let mut randomness = Randomness::from_os(&mut OsRng, count).unwrap();
        assert_eq!(randomness.remaining(), count);
        assert_eq!(randomness.take_many(count).unwrap().len(), count);
        assert_eq!(randomness.remaining(), 0);
    }
}

#[test]
fn two_runs_with_fresh_randomness_do_not_share_secrets() {
    let mut first = Randomness::from_os(&mut OsRng, 8).unwrap();
    let mut second = Randomness::from_os(&mut OsRng, 8).unwrap();
    assert_ne!(first.take_many(8).unwrap(), second.take_many(8).unwrap());
    let a = SigningKey::random(&mut OsRng).unwrap();
    let b = SigningKey::random(&mut OsRng).unwrap();
    assert_ne!(a.verifying_key(), b.verifying_key());
}
