use synedrion::protocols::round::{category, round_count};
use synedrion::protocols::ProtocolResult;
use synedrion::sessions::{Error, Fault, PayloadKind, ProtocolFault, ProvableError};
use synedrion::tools::hashing::digest;
use synedrion::{
    AuxGen, AuxInfo, FinalizeOutcome, KeyInit, KeyShare, LocalError, ParticipantSet, ProtocolKind,
    Randomness, Round,
};

const GENERATOR: u64 = 0x9E37_79B9_7F4A_7C15;
const IDS: [u64; 3] = [100, 200, 300];
const SECRETS: [u64; 3] = [11, 22, 33];

fn first_rounds() -> Vec<Round> {
    IDS.iter()
        .zip(SECRETS)
        .map(|(me, secret)| {
            let entry = KeyInit::new(ParticipantSet::new(&IDS.to_vec()).unwrap()).unwrap();
            entry.first_round(*me, &mut Randomness::from_scalars(vec![secret])).unwrap()
        })
        .collect()
}

fn slots_for(me: usize, rounds: &[Round]) -> Vec<Option<Vec<u8>>> {
    rounds
        .iter()
        .enumerate()
        .map(|(p, round)| if p == me { None } else { Some(round.payload(me)) })
        .collect()
}

fn next(outcome: FinalizeOutcome) -> Round {
    match outcome {
        FinalizeOutcome::AnotherRound(round) => round,
        other => panic!("no next round: {:?}", other),
    }
}

fn error(outcome: FinalizeOutcome) -> Error {
    match outcome {
        FinalizeOutcome::Error(error) => error,
        other => panic!("no error: {:?}", other),
    }
}

fn second_rounds() -> Vec<Round> {
    let rounds = first_rounds();
    (0..3).map(|me| next(rounds[me].finalize(&slots_for(me, &rounds)))).collect()
}

#[test]
fn protocols_differ_in_their_rounds_and_only_shares_travel_in_private() {
    assert_eq!(round_count(ProtocolKind::AuxGen), 1);
    assert_eq!(round_count(ProtocolKind::KeyInit), 2);
    assert_eq!(round_count(ProtocolKind::KeyRefresh), 2);
    assert_eq!(round_count(ProtocolKind::KeyResharing), 2);
    assert_eq!(round_count(ProtocolKind::InteractiveSigning), 3);
    for kind in [
        ProtocolKind::KeyInit,
        ProtocolKind::KeyRefresh,
        ProtocolKind::KeyResharing,
        ProtocolKind::AuxGen,
        ProtocolKind::InteractiveSigning,
    ] {
        assert_eq!(category(kind, 1), PayloadKind::Broadcast);
    }
    assert_eq!(category(ProtocolKind::KeyInit, 2), PayloadKind::Broadcast);
    assert_eq!(category(ProtocolKind::InteractiveSigning, 2), PayloadKind::Broadcast);
    assert_eq!(category(ProtocolKind::InteractiveSigning, 3), PayloadKind::Broadcast);
    assert_eq!(category(ProtocolKind::KeyRefresh, 2), PayloadKind::Direct);
    assert_eq!(category(ProtocolKind::KeyResharing, 2), PayloadKind::Direct);
}

#[test]
fn a_round_knows_what_it_expects() {
    let rounds = first_rounds();
    assert_eq!(rounds[1].kind(), ProtocolKind::KeyInit);
    assert_eq!(rounds[1].index(), 1);
    assert_eq!(rounds[1].category(), PayloadKind::Broadcast);
    assert!(rounds[1].requires_consensus());
    assert_eq!(rounds[1].expected_senders(), vec![100, 300]);
    assert_eq!(rounds[1].parties().me(), 200);
    assert_eq!(rounds[1].parties().senders().to_vec(), vec![100, 200, 300]);
    assert_eq!(rounds[1].parties().audience().to_vec(), vec![100, 200, 300]);
    assert!(rounds[1].parties().sends());
    assert!(rounds[1].parties().listens());
    assert_eq!(rounds[1].duplicate().payload(0), rounds[1].payload(0));
}

#[test]
fn the_first_payload_commits_to_the_public_point() {
    let rounds = first_rounds();
    let point = 22u64.wrapping_mul(GENERATOR);
    let commitment = digest(&point.to_le_bytes().to_vec());
    assert_eq!(rounds[1].payload(0), commitment.to_le_bytes().to_vec());
    assert_eq!(rounds[1].payload(2), commitment.to_le_bytes().to_vec());
    let seconds = second_rounds();
    assert_eq!(seconds[1].index(), 2);
    assert_eq!(seconds[1].payload(0), point.to_le_bytes().to_vec());
}

#[test]
fn honest_rounds_lead_to_consistent_key_shares() {
    let seconds = second_rounds();
    for me in 0..3 {
        match seconds[me].finalize(&slots_for(me, &seconds)) {
            FinalizeOutcome::Result(ProtocolResult::KeyShare(share)) => {
                assert_eq!(share.owner(), IDS[me]);
                assert_eq!(share.secret_share(), SECRETS[me]);
                assert_eq!(
                    share.public_shares(),
                    &SECRETS.iter().map(|s| s.wrapping_mul(GENERATOR)).collect::<Vec<u64>>()
                );
                assert_eq!(share.verifying_key(), 66u64.wrapping_mul(GENERATOR));
                assert!(share.duplicate().holders().same_as(share.holders()));
            }
            other => panic!("no key share: {:?}", other),
        }
    }
}

#[test]
fn a_missing_message_is_a_local_error() {
    let rounds = first_rounds();
    let mut slots = slots_for(0, &rounds);
    slots[2] = None;
    assert_eq!(
        error(rounds[0].finalize(&slots)),
        Error::Local(LocalError::MissingMessage { party: 300 })
    );
    assert_eq!(
        error(rounds[0].finalize(&vec![])),
        Error::Local(LocalError::MissingMessage { party: 200 })
    );
    assert_eq!(
        error(rounds[0].finalize(&slots[..2].to_vec())),
        Error::Local(LocalError::MissingMessage { party: 300 })
    );
}

#[test]
fn a_payload_that_does_not_decode_is_a_provable_fault_of_its_sender() {
    let rounds = first_rounds();
    for bad in [vec![], vec![0u8; 7], vec![0u8; 9], vec![0u8; 16]] {
        let mut slots = slots_for(0, &rounds);
        slots[1] = Some(bad);
        assert_eq!(
            error(rounds[0].finalize(&slots)),
            Error::Provable(ProvableError { party: 200, fault: Fault::CannotDeserialize })
        );
    }
}

#[test]
fn the_first_fault_in_canonical_order_is_reported() {
    let rounds = first_rounds();
    let mut slots = slots_for(0, &rounds);
    slots[1] = None;
    slots[2] = Some(vec![1, 2, 3]);
    assert_eq!(
        error(rounds[0].finalize(&slots)),
        Error::Local(LocalError::MissingMessage { party: 200 })
    );
    slots[1] = Some(vec![1, 2, 3]);
    assert_eq!(
        error(rounds[0].finalize(&slots)),
        Error::Provable(ProvableError { party: 200, fault: Fault::CannotDeserialize })
    );
}

#[test]
fn a_party_never_looks_at_its_own_slot() {
    let rounds = first_rounds();
    let mut slots = slots_for(0, &rounds);
    slots[0] = Some(vec![1, 2, 3]);
    assert_eq!(next(rounds[0].finalize(&slots)).index(), 2);
}

#[test]
fn a_value_that_does_not_match_its_commitment_is_a_provable_fault() {
    let seconds = second_rounds();
    let mut slots = slots_for(0, &seconds);
    slots[2] = Some(34u64.wrapping_mul(GENERATOR).to_le_bytes().to_vec());
    assert_eq!(
        error(seconds[0].finalize(&slots)),
        Error::Provable(ProvableError {
            party: 300,
            fault: Fault::Protocol(ProtocolFault::CommitmentMismatch)
        })
    );
    // A payload that does not decode is found before a mismatch of an earlier sender.
    slots[1] = Some(vec![]);
    assert_eq!(
        error(seconds[0].finalize(&slots)),
        Error::Provable(ProvableError { party: 200, fault: Fault::CannotDeserialize })
    );
}

#[test]
fn auxiliary_generation_yields_auxiliary_data_in_one_round() {
    let rounds: Vec<Round> = IDS
        .iter()
        .zip(SECRETS)
        .map(|(me, secret)| {
            let entry = AuxGen::new(ParticipantSet::new(&IDS.to_vec()).unwrap()).unwrap();
            entry.first_round(*me, &mut Randomness::from_scalars(vec![secret])).unwrap()
        })
        .collect();
    assert_eq!(rounds[0].kind(), ProtocolKind::AuxGen);
    assert_eq!(rounds[0].index(), 1);
    assert!(rounds[0].requires_consensus());
    assert_eq!(rounds[0].payload(1), 11u64.wrapping_mul(GENERATOR).to_le_bytes().to_vec());
    match rounds[2].finalize(&slots_for(2, &rounds)) {
        FinalizeOutcome::Result(ProtocolResult::AuxInfo(aux)) => {
            assert_eq!(aux.owner(), 300);
            assert_eq!(aux.secret_aux(), 33);
            assert_eq!(aux.holders().to_vec(), IDS.to_vec());
            assert_eq!(
                aux.public_aux(),
                &SECRETS.iter().map(|s| s.wrapping_mul(GENERATOR)).collect::<Vec<u64>>()
            );
            assert_eq!(aux.duplicate().owner(), 300);
        }
        other => panic!("no auxiliary data: {:?}", other),
    }
    let mut slots = slots_for(2, &rounds);
    slots[0] = Some(vec![1, 2, 3]);
    assert_eq!(
        error(rounds[2].finalize(&slots)),
        Error::Provable(ProvableError { party: 100, fault: Fault::CannotDeserialize })
    );
}

#[test]
fn entry_points_turn_away_what_does_not_fit() {
    let one = ParticipantSet::new(&vec![1]).unwrap();
    assert_eq!(KeyInit::new(one.duplicate()).err(), Some(LocalError::TooFewParticipants));
    assert_eq!(AuxGen::new(one).err(), Some(LocalError::TooFewParticipants));
    let entry = KeyInit::new(ParticipantSet::new(&IDS.to_vec()).unwrap()).unwrap();
    assert_eq!(entry.participants().to_vec(), IDS.to_vec());
    let mut randomness = Randomness::from_scalars(vec![5]);
    assert_eq!(entry.first_round(150, &mut randomness).err(), Some(LocalError::NotAParticipant));
    assert_eq!(randomness.remaining(), 1);
    assert!(entry.first_round(100, &mut randomness).is_ok());
    assert_eq!(
        entry.first_round(100, &mut randomness).err(),
        Some(LocalError::RandomnessUnavailable)
    );
}

#[test]
fn shares_are_only_put_together_from_parts_that_fit() {
    let set = || ParticipantSet::new(&IDS.to_vec()).unwrap();
    let points: Vec<u64> = SECRETS.iter().map(|s| s.wrapping_mul(GENERATOR)).collect();
    assert!(KeyShare::new(200, 22, set(), points.clone()).is_ok());
    for (owner, secret, public) in [
        (250, 22, points.clone()),
        (200, 23, points.clone()),
        (200, 22, points[..2].to_vec()),
    ] {
        assert_eq!(
            KeyShare::new(owner, secret, set(), public.clone()).err(),
            Some(LocalError::InconsistentAssociatedData)
        );
        assert_eq!(
            AuxInfo::new(owner, secret, set(), public).err(),
            Some(LocalError::InconsistentAssociatedData)
        );
    }
    assert_eq!(
        KeyShare::new_centralized(&set(), &vec![1, 2]).err(),
        Some(LocalError::WrongSecretCount)
    );
    assert_eq!(
        AuxInfo::new_centralized(&set(), &vec![1, 2, 3, 4]).err(),
        Some(LocalError::WrongSecretCount)
    );
    let dealt = KeyShare::new_centralized(&set(), &SECRETS.to_vec()).unwrap();
    assert_eq!(dealt.len(), 3);
    assert_eq!(dealt[1].owner(), 200);
    assert_eq!(dealt[1].secret_share(), 22);
    assert_eq!(dealt[1].public_shares(), &points);
}
