use synedrion::sessions::broadcast::verify_consensus;
use synedrion::sessions::signed_message::challenge;
use synedrion::sessions::{ConsensusError, Error, Fault, PayloadKind, Report, SigningKey};

fn signed(key: &SigningKey, session_id: u64, round: u32, reporter: u64, digest: u64) -> Report {
    let c = challenge(session_id, round, key.verifying_key(), PayloadKind::Broadcast, digest);
    Report { reporter, digest, signature: key.sign(c) }
}

#[test]
fn agreeing_reports_pass() {
    let key = SigningKey::new(9);
    let reports: Vec<Report> = (1..=4).map(|r| signed(&key, 3, 1, r, 555)).collect();
    assert_eq!(verify_consensus(3, 1, key.verifying_key(), &reports), Ok(()));
    assert_eq!(verify_consensus(3, 1, key.verifying_key(), &vec![]), Ok(()));
    assert_eq!(verify_consensus(3, 1, key.verifying_key(), &reports[..1].to_vec()), Ok(()));
}

#[test]
fn the_first_dissenting_report_is_the_evidence() {
    let key = SigningKey::new(9);
    let sender = key.verifying_key();
    let reports = vec![
        signed(&key, 3, 2, 1, 555),
        signed(&key, 3, 2, 2, 555),
        signed(&key, 3, 2, 3, 777),
        signed(&key, 3, 2, 4, 888),
    ];
    let error = verify_consensus(3, 2, sender, &reports).unwrap_err();
    assert_eq!(
        error,
        ConsensusError { session_id: 3, round: 2, sender, first: reports[0], second: reports[2] }
    );
    assert!(error.verify());
    let classified = Error::from_consensus(error);
    assert!(classified.is_provable());
    assert_eq!(classified.party(), Some(sender));
    assert!(matches!(classified, Error::Provable(e) if e.fault == Fault::Consensus(error)));
}

#[test]
fn evidence_without_two_signed_and_different_reports_convicts_nobody() {
    let key = SigningKey::new(9);
    let sender = key.verifying_key();
    let a = signed(&key, 3, 2, 1, 555);
    let b = signed(&key, 3, 2, 2, 777);
    let good = ConsensusError { session_id: 3, round: 2, sender, first: a, second: b };
    assert!(good.verify());
    // The same digest twice.
    assert!(!ConsensusError { second: a, ..good }.verify());
    // A report the sender did not sign.
    let unsigned = Report { signature: b.signature.wrapping_add(1), ..b };
    assert!(!ConsensusError { second: unsigned, ..good }.verify());
    assert!(!ConsensusError { first: unsigned, second: a, ..good }.verify());
    // Signed for another round, another session, or by another sender.
    assert!(!ConsensusError { round: 1, ..good }.verify());
    assert!(!ConsensusError { session_id: 4, ..good }.verify());
    assert!(!ConsensusError { sender: SigningKey::new(10).verifying_key(), ..good }.verify());
}
