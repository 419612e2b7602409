use synedrion::protocols::ProtocolResult;
use synedrion::sessions::{Error, Fault, ProtocolFault, ProvableError};
use synedrion::{
    AuxInfo, EntryPoint, FinalizeOutcome, InteractiveSigning, KeyShare, LocalError, Outgoing,
    ParticipantSet, Randomness, Session, Signature, SigningKey,
};

const GENERATOR: u64 = 0x9E37_79B9_7F4A_7C15;

fn keys() -> Vec<SigningKey> {
    vec![SigningKey::new(5), SigningKey::new(6)]
}

fn ids_in_order() -> (Vec<SigningKey>, Vec<u64>) {
    let mut pairs: Vec<(u64, SigningKey)> =
        keys().into_iter().map(|key| (key.verifying_key(), key)).collect();
    pairs.sort_by_key(|pair| pair.0);
    let ids = pairs.iter().map(|pair| pair.0).collect();
    (pairs.into_iter().map(|pair| pair.1).collect(), ids)
}

fn start(message: &[u8], nonces: &[u64]) -> (Vec<u64>, Vec<Session>, u64) {
    start_with(message, nonces, 2000)
}

/// Starts two sessions. The second party believes its share to be
/// `second_share`; the first party knows it as 2000.
fn start_with(message: &[u8], nonces: &[u64], second_share: u64) -> (Vec<u64>, Vec<Session>, u64) {
    let (keys, ids) = ids_in_order();
    let set = ParticipantSet::new(&ids).unwrap();
    let mut shares = KeyShare::new_centralized(&set, &vec![1000, 2000]).unwrap();
    let mut other = KeyShare::new_centralized(&set, &vec![1000, second_share]).unwrap();
    shares[1] = other.remove(1);
    let auxes = AuxInfo::new_centralized(&set, &vec![31, 32]).unwrap();
    let public_key = shares[0].verifying_key();
    let mut sessions = Vec::new();
    for (((key, share), aux), nonce) in keys.into_iter().zip(shares).zip(auxes).zip(nonces) {
        let entry = EntryPoint::InteractiveSigning(
            InteractiveSigning::new(message.to_vec(), share, aux).unwrap(),
        );
        let mut randomness = Randomness::from_scalars(vec![*nonce]);
        sessions.push(Session::with_randomness(42, key, &entry, &mut randomness).unwrap());
    }
    (ids, sessions, public_key)
}

fn collect(sessions: &mut [Session]) -> Vec<Outgoing> {
    let mut batch = Vec::new();
    for session in sessions.iter_mut() {
        batch.extend(session.outgoing_messages());
    }
    batch
}

fn deliver(ids: &[u64], sessions: &mut [Session], batch: Vec<Outgoing>) {
    for outgoing in batch {
        let at = ids.iter().position(|id| *id == outgoing.recipient).unwrap();
        assert_eq!(sessions[at].add_message(outgoing.message), Ok(()));
    }
}

fn run_round(ids: &[u64], sessions: &mut [Session]) -> Vec<FinalizeOutcome> {
    let payloads = collect(sessions);
    deliver(ids, sessions, payloads);
    let confirmations = collect(sessions);
    deliver(ids, sessions, confirmations);
    sessions
        .iter_mut()
        .map(|session| {
            assert!(session.can_finalize());
            session.finalize()
        })
        .collect()
}

fn signature(outcome: &FinalizeOutcome) -> Signature {
    match outcome {
        FinalizeOutcome::Result(ProtocolResult::Signature(signature)) => *signature,
        other => panic!("no signature: {:?}", other),
    }
}

#[test]
fn two_parties_sign_and_agree_byte_for_byte() {
    let message = [7u8; 32];
    let (ids, mut sessions, public_key) = start(&message, &[17, 19]);
    assert_eq!(public_key, 3000u64.wrapping_mul(GENERATOR));
    for index in [2u32, 3] {
        let outcomes = run_round(&ids, &mut sessions);
        assert!(outcomes.iter().all(
            |outcome| matches!(outcome, FinalizeOutcome::AnotherRound(round) if round.index() == index)
        ));
    }
    let third = run_round(&ids, &mut sessions);
    let a = signature(&third[0]);
    let b = signature(&third[1]);
    assert_eq!(a.to_bytes(), b.to_bytes());
    assert_eq!(a.to_bytes().len(), 16);
    assert_eq!(a.r, 36u64.wrapping_mul(GENERATOR));
    assert!(a.verify(public_key, &message.to_vec()));
    assert!(!a.verify(public_key, &[8u8; 32].to_vec()));
    assert!(!a.verify(public_key.wrapping_add(1), &message.to_vec()));
    let tampered = Signature { r: a.r, s: a.s.wrapping_add(1) };
    assert!(!tampered.verify(public_key, &message.to_vec()));
}

#[test]
fn a_wrong_partial_signature_is_a_provable_fault_of_its_signer() {
    let message = [1u8; 32];
    let (ids, mut sessions, _) = start_with(&message, &[3, 4], 2001);
    run_round(&ids, &mut sessions);
    run_round(&ids, &mut sessions);
    let payloads = collect(&mut sessions);
    deliver(&ids, &mut sessions, payloads);
    let confirmations = collect(&mut sessions);
    deliver(&ids, &mut sessions, confirmations);
    match sessions[0].finalize() {
        FinalizeOutcome::Error(Error::Provable(ProvableError { party, fault })) => {
            assert_eq!(party, ids[1]);
            assert_eq!(fault, Fault::Protocol(ProtocolFault::InvalidPartialSignature));
        }
        other => panic!("no provable error: {:?}", other),
    }
    let evidence = sessions[0].evidence(ids[1]);
    assert_eq!(evidence.len(), 6);
    assert!(evidence.iter().all(|message| message.is_authentic() && message.sender == ids[1]));
}

#[test]
fn holders_commit_to_their_nonces_before_they_reveal_them() {
    let message = [7u8; 32];
    let (ids, mut sessions, _) = start(&message, &[17, 19]);
    let point = |nonce: u64| nonce.wrapping_mul(GENERATOR);
    let commitment = |nonce: u64| {
        synedrion::tools::hashing::digest(&point(nonce).to_le_bytes().to_vec())
    };
    let first = collect(&mut sessions);
    assert_eq!(first[0].message.round, 1);
    assert_eq!(first[0].message.payload, commitment(17).to_le_bytes().to_vec());
    assert_eq!(first[1].message.payload, commitment(19).to_le_bytes().to_vec());
    deliver(&ids, &mut sessions, first);
    let confirmations = collect(&mut sessions);
    deliver(&ids, &mut sessions, confirmations);
    for session in sessions.iter_mut() {
        assert!(matches!(session.finalize(), FinalizeOutcome::AnotherRound(_)));
    }
    let second = collect(&mut sessions);
    assert_eq!(second[0].message.round, 2);
    assert_eq!(second[0].message.payload, point(17).to_le_bytes().to_vec());
    assert_eq!(second[1].message.payload, point(19).to_le_bytes().to_vec());
}

#[test]
fn a_nonce_that_does_not_match_its_commitment_is_a_provable_fault() {
    let message = [7u8; 32];
    let (keys, ids) = ids_in_order();
    let set = ParticipantSet::new(&ids).unwrap();
    let shares = KeyShare::new_centralized(&set, &vec![1000, 2000]).unwrap();
    let auxes = AuxInfo::new_centralized(&set, &vec![31, 32]).unwrap();
    let mut rounds = Vec::new();
    for ((key, share), aux) in keys.iter().zip(shares).zip(auxes) {
        let entry = InteractiveSigning::new(message.to_vec(), share, aux).unwrap();
        let nonce = Randomness::from_scalars(vec![5]).take().unwrap();
        rounds.push(
            entry
                .first_round(key.verifying_key(), &mut Randomness::from_scalars(vec![nonce]))
                .unwrap(),
        );
    }
    let second = match rounds[0].finalize(&vec![None, Some(rounds[1].payload(0))]) {
        FinalizeOutcome::AnotherRound(round) => round,
        other => panic!("no second round: {:?}", other),
    };
    assert_eq!(second.index(), 2);
    let other_point = 6u64.wrapping_mul(GENERATOR).to_le_bytes().to_vec();
    match second.finalize(&vec![None, Some(other_point)]) {
        FinalizeOutcome::Error(Error::Provable(ProvableError { party, fault })) => {
            assert_eq!(party, ids[1]);
            assert_eq!(fault, Fault::Protocol(ProtocolFault::CommitmentMismatch));
        }
        other => panic!("no provable error: {:?}", other),
    }
    let honest = 5u64.wrapping_mul(GENERATOR).to_le_bytes().to_vec();
    assert!(matches!(
        second.finalize(&vec![None, Some(honest)]),
        FinalizeOutcome::AnotherRound(round) if round.index() == 3
    ));
}

#[test]
fn signing_rejects_data_that_does_not_belong_together() {
    let (_, ids) = ids_in_order();
    let set = ParticipantSet::new(&ids).unwrap();
    let mut shares = KeyShare::new_centralized(&set, &vec![1, 2]).unwrap();
    let mut auxes = AuxInfo::new_centralized(&set, &vec![3, 4]).unwrap();
    let share = shares.remove(0);
    let aux = auxes.remove(1);
    assert_eq!(
        InteractiveSigning::new(vec![0; 32], share, aux).err(),
        Some(LocalError::InconsistentAssociatedData)
    );

    let solo = ParticipantSet::new(&vec![ids[0]]).unwrap();
    let share = KeyShare::new_centralized(&solo, &vec![1]).unwrap().remove(0);
    let aux = AuxInfo::new_centralized(&solo, &vec![3]).unwrap().remove(0);
    assert_eq!(
        InteractiveSigning::new(vec![0; 32], share, aux).err(),
        Some(LocalError::TooFewParticipants)
    );
}

#[test]
fn only_the_owner_of_a_key_share_can_sign_with_it() {
    let (keys, ids) = ids_in_order();
    let set = ParticipantSet::new(&ids).unwrap();
    let share = KeyShare::new_centralized(&set, &vec![1, 2]).unwrap().remove(0);
    let aux = AuxInfo::new_centralized(&set, &vec![3, 4]).unwrap().remove(0);
    let entry = EntryPoint::InteractiveSigning(
        InteractiveSigning::new(vec![0; 32], share, aux).unwrap(),
    );
    let mut randomness = Randomness::from_scalars(vec![9]);
    let other = keys.into_iter().nth(1).unwrap();
    assert_eq!(
        Session::with_randomness(1, other, &entry, &mut randomness).err(),
        Some(LocalError::InconsistentAssociatedData)
    );
    assert_eq!(randomness.remaining(), 1);
    assert_eq!(
        Session::with_randomness(1, SigningKey::new(999), &entry, &mut randomness).err(),
        Some(LocalError::NotAParticipant)
    );
    let mut empty = Randomness::from_scalars(vec![]);
    let (keys, _) = ids_in_order();
    let owner = keys.into_iter().next().unwrap();
    assert_eq!(
        Session::with_randomness(1, owner, &entry, &mut empty).err(),
        Some(LocalError::RandomnessUnavailable)
    );
}
