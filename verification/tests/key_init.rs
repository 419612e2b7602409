use synedrion::protocols::ProtocolResult;
use synedrion::sessions::{Error, Fault, PayloadKind, ProvableError};
use synedrion::{
    EntryPoint, FinalizeOutcome, KeyInit, KeyShare, Outgoing, ParticipantSet, Randomness, Session,
    SignedMessage, SigningKey,
};

const GENERATOR: u64 = 0x9E37_79B9_7F4A_7C15;

fn keys() -> Vec<SigningKey> {
    vec![SigningKey::new(101), SigningKey::new(202), SigningKey::new(303)]
}

fn identities(keys: &[SigningKey]) -> Vec<u64> {
    keys.iter().map(|key| key.verifying_key()).collect()
}

fn start(session_id: u64, secrets: &[u64]) -> (Vec<u64>, Vec<Session>) {
    let keys = keys();
    let ids = identities(&keys);
    let mut sessions = Vec::new();
    for (key, secret) in keys.into_iter().zip(secrets) {
        let set = ParticipantSet::new(&ids).unwrap();
        let entry = EntryPoint::KeyInit(KeyInit::new(set).unwrap());
        let mut randomness = Randomness::from_scalars(vec![*secret]);
        sessions.push(Session::with_randomness(session_id, key, &entry, &mut randomness).unwrap());
    }
    (ids, sessions)
}

fn collect(sessions: &mut [Session]) -> Vec<Outgoing> {
    let mut batch = Vec::new();
    for session in sessions.iter_mut() {
        batch.extend(session.outgoing_messages());
    }
    batch
}

fn deliver(ids: &[u64], sessions: &mut [Session], batch: Vec<Outgoing>) {
    for outgoing in batch {
        let at = ids.iter().position(|id| *id == outgoing.recipient).unwrap();
        assert_eq!(sessions[at].add_message(outgoing.message), Ok(()));
    }
}

fn run_round(ids: &[u64], sessions: &mut [Session]) -> Vec<FinalizeOutcome> {
    let payloads = collect(sessions);
    assert_eq!(payloads.len(), ids.len() * (ids.len() - 1));
    deliver(ids, sessions, payloads);
    let confirmations = collect(sessions);
    assert_eq!(confirmations.len(), ids.len() * (ids.len() - 1));
    deliver(ids, sessions, confirmations);
    assert!(collect(sessions).is_empty());
    sessions
        .iter_mut()
        .map(|session| {
            assert!(session.can_finalize());
            session.finalize()
        })
        .collect()
}

fn key_share(outcome: FinalizeOutcome) -> KeyShare {
    match outcome {
        FinalizeOutcome::Result(ProtocolResult::KeyShare(share)) => share,
        other => panic!("no key share: {:?}", other),
    }
}

#[test]
fn three_parties_generate_one_key() {
    let secrets = [11u64, 22, 33];
    let (ids, mut sessions) = start(7, &secrets);
    let first = run_round(&ids, &mut sessions);
    for (outcome, session) in first.iter().zip(&sessions) {
        assert!(matches!(outcome, FinalizeOutcome::AnotherRound(round) if round.index() == 2));
        assert_eq!(session.round().index(), 2);
        assert!(!session.is_finished());
    }
    let second = run_round(&ids, &mut sessions);
    let shares: Vec<KeyShare> = second.into_iter().map(key_share).collect();

    let mut order: Vec<usize> = (0..3).collect();
    order.sort_by_key(|i| ids[*i]);
    let mut sorted_ids = ids.clone();
    sorted_ids.sort();
    let expected_public: Vec<u64> =
        order.iter().map(|i| secrets[*i].wrapping_mul(GENERATOR)).collect();
    let expected_key = (11u64 + 22 + 33).wrapping_mul(GENERATOR);

    for (i, share) in shares.iter().enumerate() {
        assert_eq!(share.owner(), ids[i]);
        assert_eq!(share.secret_share(), secrets[i]);
        assert_eq!(share.holders().to_vec(), sorted_ids);
        assert_eq!(share.public_shares(), &expected_public);
        assert_eq!(share.verifying_key(), expected_key);
    }
    let combined = shares.iter().fold(0u64, |sum, share| sum.wrapping_add(share.secret_share()));
    assert_eq!(combined.wrapping_mul(GENERATOR), shares[0].verifying_key());
    for session in &sessions {
        assert!(session.is_finished());
    }
}

#[test]
fn equivocation_in_round_two_is_convicted_by_both_victims() {
    let secrets = [11u64, 22, 33];
    let (ids, mut sessions) = start(9, &secrets);
    run_round(&ids, &mut sessions);

    let cheater = 1;
    let cheater_key = SigningKey::new(202);
    let payloads = collect(&mut sessions);
    let mut tampered = Vec::new();
    for outgoing in payloads {
        if outgoing.message.sender == ids[cheater] && outgoing.recipient == ids[2] {
            let forged = SignedMessage::seal(
                9,
                2,
                ids[cheater],
                PayloadKind::Broadcast,
                777u64.to_le_bytes().to_vec(),
                &cheater_key,
            );
            tampered.push(Outgoing { recipient: outgoing.recipient, message: forged });
        } else {
            tampered.push(outgoing);
        }
    }
    deliver(&ids, &mut sessions, tampered);
    let confirmations = collect(&mut sessions);
    deliver(&ids, &mut sessions, confirmations);

    for victim in [0usize, 2] {
        assert!(sessions[victim].can_finalize());
        match sessions[victim].finalize() {
            FinalizeOutcome::Error(Error::Provable(ProvableError {
                party,
                fault: Fault::Consensus(evidence),
            })) => {
                assert_eq!(party, ids[cheater]);
                assert_eq!(evidence.sender, ids[cheater]);
                assert_eq!(evidence.round, 2);
                assert_eq!(evidence.session_id, 9);
                assert_ne!(evidence.first.digest, evidence.second.digest);
                assert!(evidence.verify());
                // The whole set of reports about the cheater can be exported.
                let reports = sessions[victim].reports_about(ids[cheater]).unwrap();
                assert_eq!(reports.len(), 3);
                assert!(reports.contains(&evidence.first));
                assert!(reports.contains(&evidence.second));
                let mut sorted_ids = ids.clone();
                sorted_ids.sort();
                assert_eq!(
                    reports.iter().map(|report| report.reporter).collect::<Vec<u64>>(),
                    sorted_ids
                );
            }
            other => panic!("no consensus error: {:?}", other),
        }
        assert!(sessions[victim].is_finished());
        assert_eq!(sessions[victim].reports_about(12345), None);
    }
}

#[test]
fn reports_are_exported_once_a_broadcast_round_is_complete() {
    let (ids, mut sessions) = start(4, &[1, 2, 3]);
    assert_eq!(sessions[0].reports_about(ids[1]), None);
    let payloads = collect(&mut sessions);
    deliver(&ids, &mut sessions, payloads);
    assert_eq!(sessions[0].reports_about(ids[1]), None);
    let confirmations = collect(&mut sessions);
    deliver(&ids, &mut sessions, confirmations);
    for sender in &ids {
        let reports = sessions[0].reports_about(*sender).unwrap();
        assert_eq!(reports.len(), 3);
        assert!(reports.iter().all(|report| report.digest == reports[0].digest
            && report.signature == reports[0].signature));
    }
    assert_eq!(sessions[0].reports_about(999), None);
}

#[test]
fn finalize_before_the_round_is_complete_changes_nothing() {
    let (ids, mut sessions) = start(3, &[1, 2, 3]);
    assert!(!sessions[0].can_finalize());
    for _ in 0..2 {
        assert!(matches!(
            sessions[0].finalize(),
            FinalizeOutcome::Error(Error::Local(synedrion::LocalError::NotReady))
        ));
        assert!(!sessions[0].is_finished());
        assert_eq!(sessions[0].round().index(), 1);
    }
    let outcomes = run_round(&ids, &mut sessions);
    assert!(matches!(outcomes[0], FinalizeOutcome::AnotherRound(_)));
}
