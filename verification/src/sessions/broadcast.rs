//! Broadcast consensus: catching a sender that tells different recipients
//! different things.
//!
//! After a broadcast round every recipient tells the others what it received
//! from each sender, as the digest of the payload together with the sender's
//! signature on it. For one round and one sender all reports must carry the
//! same digest. Two reports with different digests, both signed by the
//! sender, convict the sender of equivocation, and anyone can verify the
//! conviction from the two reports alone.

use vstd::prelude::*;
use crate::sessions::signed_message::{
    challenge,
    lemma_signature_binds_challenge,
    spec_challenge,
    spec_header_digest,
    spec_verifies,
    verifies,
    PayloadKind,
};
use crate::tools::arithmetic::{lemma_add_laws, lemma_sub_laws, spec_add, spec_sub};

verus! {

/// One recipient's account of a sender's broadcast: the digest of the payload
/// it received and the sender's signature on that payload.
#[derive(Clone, Copy, Debug, PartialEq, Eq, Structural)]
pub struct Report {
    pub reporter: u64,
    pub digest: u64,
    pub signature: u64,
}

/// Proof that `sender` broadcast two different payloads in `round` of the
/// session `session_id`: two reports that disagree.
#[derive(Clone, Copy, Debug, PartialEq, Eq, Structural)]
pub struct ConsensusError {
    pub session_id: u64,
    pub round: u32,
    pub sender: u64,
    pub first: Report,
    pub second: Report,
}

/// Whether all reports carry the same digest.
pub open spec fn spec_agree(reports: Seq<Report>) -> bool {
    forall|i: int| 0 <= i < reports.len() ==> (#[trigger] reports[i]).digest == reports[0].digest
}

/// The position of the first report that disagrees with the report at
/// position zero, searching from `from`; the length of the list if none
/// does.
pub open spec fn spec_first_dissent(reports: Seq<Report>, from: int) -> int
    decreases reports.len() - from,
{
    if from < 0 || from >= reports.len() {
        reports.len() as int
    } else if reports[from].digest != reports[0].digest {
        from
    } else {
        spec_first_dissent(reports, from + 1)
    }
}

/// What the cross-examination of the reports about one sender yields:
/// nothing if they agree, otherwise the first report together with the first
/// one that disagrees with it.
pub open spec fn spec_verify_consensus(
    session_id: u64,
    round: u32,
    sender: u64,
    reports: Seq<Report>,
) -> Result<(), ConsensusError> {
    let at = spec_first_dissent(reports, 0);
    if at >= reports.len() {
        Ok(())
    } else {
        Err(
            ConsensusError { session_id, round, sender, first: reports[0], second: reports[at] },
        )
    }
}

/// Whether the sender's signature in a report verifies for a broadcast with
/// the reported digest.
pub open spec fn spec_report_is_signed(
    session_id: u64,
    round: u32,
    sender: u64,
    report: Report,
) -> bool {
    spec_verifies(
        sender,
        spec_challenge(session_id, round, sender, PayloadKind::Broadcast, report.digest),
        report.signature,
    )
}

/// Whether the evidence convicts the accused sender: both reports carry the
/// sender's signature, and their digests differ.
pub open spec fn spec_convicts(e: ConsensusError) -> bool {
    &&& spec_report_is_signed(e.session_id, e.round, e.sender, e.first)
    &&& spec_report_is_signed(e.session_id, e.round, e.sender, e.second)
    &&& e.first.digest != e.second.digest
}

/// The first dissent lies at or after the start of the search, disagrees
/// with the first report, and nothing between the start and it disagrees.
pub proof fn lemma_first_dissent(reports: Seq<Report>, from: int)
    requires
        0 <= from <= reports.len(),
    ensures
        from <= spec_first_dissent(reports, from) <= reports.len(),
        spec_first_dissent(reports, from) < reports.len() ==> reports[spec_first_dissent(
            reports,
            from,
        )].digest != reports[0].digest,
        forall|k: int|
            from <= k < spec_first_dissent(reports, from) ==> (#[trigger] reports[k]).digest
                == reports[0].digest,
    decreases reports.len() - from,
{
    if from < reports.len() && reports[from].digest == reports[0].digest {
        lemma_first_dissent(reports, from + 1);
    }
}

/// The reports agree exactly when the cross-examination finds no fault.
pub proof fn lemma_consensus_iff_agreement(
    session_id: u64,
    round: u32,
    sender: u64,
    reports: Seq<Report>,
)
    ensures
        spec_agree(reports) <==> spec_verify_consensus(session_id, round, sender, reports) is Ok,
{
    lemma_first_dissent(reports, 0);
}

/// Cross-examines the reports about one sender's broadcast in one round.
pub fn verify_consensus(session_id: u64, round: u32, sender: u64, reports: &Vec<Report>) -> (r:
    Result<(), ConsensusError>)
    ensures
        r == spec_verify_consensus(session_id, round, sender, reports@),
        spec_agree(reports@) <==> r is Ok,
{
    proof {
        lemma_first_dissent(reports@, 0);
    }
    let mut i: usize = 0;
    while i < reports.len()
        invariant
            i <= reports.len(),
            spec_first_dissent(reports@, 0) == spec_first_dissent(reports@, i as int),
        decreases reports.len() - i,
    {
        if reports[i].digest != reports[0].digest {
            return Err(
                ConsensusError { session_id, round, sender, first: reports[0], second: reports[i] },
            );
        }
        i = i + 1;
    }
    Ok(())
}

impl ConsensusError {
    /// Replays the evidence: decides, from the error alone, whether it
    /// convicts the accused sender.
    pub fn verify(&self) -> (ok: bool)
        ensures
            ok == spec_convicts(*self),
    {
        let c1 = challenge(
            self.session_id,
            self.round,
            self.sender,
            PayloadKind::Broadcast,
            self.first.digest,
        );
        let c2 = challenge(
            self.session_id,
            self.round,
            self.sender,
            PayloadKind::Broadcast,
            self.second.digest,
        );
        verifies(self.sender, c1, self.first.signature) && verifies(
            self.sender,
            c2,
            self.second.signature,
        ) && self.first.digest != self.second.digest
    }
}

/// Whenever two of the reports about a sender carry different digests, the
/// cross-examination fails with an error that names that sender; and if the
/// reports carry the sender's signature, the error convicts the sender for
/// anyone who replays it.
pub proof fn lemma_equivocation_is_convicted(
    session_id: u64,
    round: u32,
    sender: u64,
    reports: Seq<Report>,
    i: int,
    j: int,
)
    requires
        0 <= i < reports.len(),
        0 <= j < reports.len(),
        reports[i].digest != reports[j].digest,
    ensures
        spec_verify_consensus(session_id, round, sender, reports) is Err,
        spec_verify_consensus(session_id, round, sender, reports)->Err_0.sender == sender,
        spec_verify_consensus(session_id, round, sender, reports)->Err_0.round == round,
        spec_verify_consensus(session_id, round, sender, reports)->Err_0.session_id == session_id,
        (forall|k: int|
            0 <= k < reports.len() ==> spec_report_is_signed(
                session_id,
                round,
                sender,
                #[trigger] reports[k],
            )) ==> spec_convicts(spec_verify_consensus(session_id, round, sender, reports)->Err_0),
{
    lemma_first_dissent(reports, 0);
    let at = spec_first_dissent(reports, 0);
    if at >= reports.len() {
        assert(reports[i].digest == reports[0].digest);
        assert(reports[j].digest == reports[0].digest);
    }
}

/// A convicting error shows two signatures of the accused sender, for one
/// session and one round, on two different challenges: the sender signed
/// two different broadcasts.
pub proof fn lemma_conviction_shows_two_broadcasts(e: ConsensusError)
    requires
        spec_convicts(e),
    ensures
        spec_challenge(e.session_id, e.round, e.sender, PayloadKind::Broadcast, e.first.digest)
            != spec_challenge(
            e.session_id,
            e.round,
            e.sender,
            PayloadKind::Broadcast,
            e.second.digest,
        ),
        e.first.signature != e.second.signature,
{
    let d1 = e.first.digest;
    let d2 = e.second.digest;
    let c1 = spec_challenge(e.session_id, e.round, e.sender, PayloadKind::Broadcast, d1);
    let c2 = spec_challenge(e.session_id, e.round, e.sender, PayloadKind::Broadcast, d2);
    if c1 == c2 {
        let hd = spec_header_digest(e.session_id, e.round, e.sender, PayloadKind::Broadcast);
        lemma_add_laws(hd, d1, 0);
        lemma_add_laws(hd, d2, 0);
        lemma_sub_laws(d1, hd);
        lemma_sub_laws(d2, hd);
        assert(d1 == spec_sub(spec_add(d1, hd), hd));
        assert(d2 == spec_sub(spec_add(d2, hd), hd));
        assert(false);
    }
    if e.first.signature == e.second.signature {
        lemma_signature_binds_challenge(e.sender, c1, c2, e.first.signature);
    }
}

} // verus!
