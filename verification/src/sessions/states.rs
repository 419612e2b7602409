//! The session: one party's run of one protocol.
//!
//! A session owns the current round. It opens every envelope it is given,
//! files payloads by sender and confirmations by reporter, holds early
//! payloads for the next round, and leaves a round only when everything the
//! round expects is there and the broadcasts have passed consensus.

use vstd::prelude::*;
use rand_core::OsRng;
use crate::participants::{is_canonical, spec_position};
use crate::protocols::entry::{
    lemma_start_fails_for_two_reasons,
    spec_admission,
    spec_randomness_needed,
    spec_start,
    EntryPoint,
};
use crate::tools::random::Randomness;
use crate::protocols::parties::PartiesView;
use crate::protocols::round::{
    spec_follows,
    round_count,
    spec_category,
    spec_finalize,
    spec_outcome_wf,
    spec_payload,
    spec_round_count,
    spec_round_wf,
    FinalizeOutcome,
    FinalizeOutcomeView,
    Round,
    RoundView,
};
use crate::sessions::broadcast::{
    spec_report_is_signed,
    spec_verify_consensus,
    verify_consensus,
    ConsensusError,
    Report,
};
use crate::sessions::error::{
    Error,
    Fault,
    LocalError,
    ProvableError,
    RemoteError,
    RemoteErrorEnum,
};
use crate::sessions::signed_message::{
    challenge,
    copy_bytes,
    spec_authentic,
    spec_challenge,
    spec_open,
    spec_seal,
    spec_sign,
    spec_verifies,
    verifies,
    MessageView,
    PayloadKind,
    SignedMessage,
    SigningKey,
};
use crate::tools::arithmetic::spec_point;
use crate::tools::codec::{decode_scalars, encode_scalars, spec_decode_scalars, spec_encode_scalars};
use crate::tools::hashing::{digest, spec_digest};
use crate::tools::search::{lemma_first_index, spec_first_index};

verus! {

/// A payload that was accepted, with its sender's signature.
#[derive(Debug)]
pub struct Received {
    pub payload: Vec<u8>,
    pub signature: u64,
}

/// The mathematical content of [`Received`].
pub struct ReceivedView {
    pub payload: Seq<u8>,
    pub signature: u64,
}

impl View for Received {
    type V = ReceivedView;

    open spec fn view(&self) -> ReceivedView {
        ReceivedView { payload: self.payload@, signature: self.signature }
    }
}

/// An envelope together with the party it is to be delivered to.
#[derive(Debug)]
pub struct Outgoing {
    pub recipient: u64,
    pub message: SignedMessage,
}

/// The mathematical content of [`Outgoing`].
pub struct OutgoingView {
    pub recipient: u64,
    pub message: MessageView,
}

impl View for Outgoing {
    type V = OutgoingView;

    open spec fn view(&self) -> OutgoingView {
        OutgoingView { recipient: self.recipient, message: self.message@ }
    }
}

/// One party's run of one protocol.
#[derive(Debug)]
pub struct Session {
    session_id: u64,
    key: SigningKey,
    round: Round,
    received: Vec<Option<Received>>,
    pending: Vec<Option<Received>>,
    confirmations: Vec<Option<Vec<Report>>>,
    payloads_sent: bool,
    confirmations_sent: bool,
    finished: bool,
    transcript: Vec<SignedMessage>,
}

/// The mathematical content of a [`Session`].
///
/// `received` and `pending` hold the payloads of the current and of the
/// next round, by position of their sender. `confirmations` holds, by
/// position of the reporter in the audience, the reports of that reporter
/// about every sender, by position of the sender.
pub struct SessionView {
    pub session_id: u64,
    pub secret: u64,
    pub round: RoundView,
    pub received: Seq<Option<ReceivedView>>,
    pub pending: Seq<Option<ReceivedView>>,
    pub confirmations: Seq<Option<Seq<Report>>>,
    pub payloads_sent: bool,
    pub confirmations_sent: bool,
    pub finished: bool,
    pub transcript: Seq<MessageView>,
}

/// The content of a vector of slots.
pub open spec fn spec_received_view(slots: Seq<Option<Received>>) -> Seq<Option<ReceivedView>> {
    Seq::new(
        slots.len(),
        |p: int|
            match slots[p] {
                Some(r) => Some(r@),
                None => None,
            },
    )
}

/// The content of a vector of confirmations.
pub open spec fn spec_confirmations_view(slots: Seq<Option<Vec<Report>>>) -> Seq<
    Option<Seq<Report>>,
> {
    Seq::new(
        slots.len(),
        |q: int|
            match slots[q] {
                Some(reports) => Some(reports@),
                None => None,
            },
    )
}

/// The content of a transcript.
pub open spec fn spec_transcript_view(transcript: Seq<SignedMessage>) -> Seq<MessageView> {
    Seq::new(transcript.len(), |i: int| transcript[i]@)
}

impl View for Session {
    type V = SessionView;

    closed spec fn view(&self) -> SessionView {
        SessionView {
            session_id: self.session_id,
            secret: self.key.spec_secret(),
            round: self.round@,
            received: spec_received_view(self.received@),
            pending: spec_received_view(self.pending@),
            confirmations: spec_confirmations_view(self.confirmations@),
            payloads_sent: self.payloads_sent,
            confirmations_sent: self.confirmations_sent,
            finished: self.finished,
            transcript: spec_transcript_view(self.transcript@),
        }
    }
}

/// Whether the payloads in `slots` are what the senders signed for round
/// `index` of the session: a slot is filled only for a sender other than
/// this party, and the signature kept with a payload verifies for it.
pub open spec fn spec_slots_wf(s: SessionView, slots: Seq<Option<ReceivedView>>, index: u32) -> bool {
    &&& slots.len() == s.round.parties.senders.len()
    &&& forall|p: int|
        0 <= p < slots.len() ==> ((#[trigger] slots[p]) matches Some(r) ==> {
            &&& s.round.parties.senders[p] != s.round.parties.me
            &&& spec_verifies(
                s.round.parties.senders[p],
                spec_challenge(
                    s.session_id,
                    index,
                    s.round.parties.senders[p],
                    spec_category(s.round.kind, index),
                    spec_digest(r.payload),
                ),
                r.signature,
            )
        })
}

/// Whether a session is well formed.
pub open spec fn spec_session_wf(s: SessionView) -> bool {
    &&& spec_round_wf(s.round)
    &&& s.round.parties.me == spec_point(s.secret)
    &&& spec_slots_wf(s, s.received, s.round.index)
    &&& spec_slots_wf(s, s.pending, (s.round.index + 1) as u32)
    &&& s.confirmations.len() == s.round.parties.audience.len()
    &&& forall|q: int|
        0 <= q < s.confirmations.len() ==> ((#[trigger] s.confirmations[q]) matches Some(
            reports,
        ) ==> {
            &&& s.round.parties.audience[q] != s.round.parties.me
            &&& reports.len() == s.round.parties.senders.len()
            &&& forall|p: int|
                0 <= p < reports.len() ==> (#[trigger] reports[p]).reporter
                    == s.round.parties.audience[q] && spec_report_is_signed(
                    s.session_id,
                    s.round.index,
                    s.round.parties.senders[p],
                    reports[p],
                )
        })
}

/// The state a session starts in.
pub open spec fn spec_initial(session_id: u64, secret: u64, round: RoundView) -> SessionView {
    SessionView {
        session_id,
        secret,
        round,
        received: Seq::new(round.parties.senders.len(), |p: int| None),
        pending: Seq::new(round.parties.senders.len(), |p: int| None),
        confirmations: Seq::new(round.parties.audience.len(), |q: int| None),
        payloads_sent: false,
        confirmations_sent: false,
        finished: false,
        transcript: Seq::empty(),
    }
}

/// The last round whose envelopes of category `kind` the session accepts.
/// Payloads are accepted one round ahead, as long as there is a next round;
/// confirmations only for the current round.
pub open spec fn spec_last_accepted(s: SessionView, kind: PayloadKind) -> u32 {
    if kind is Confirmation || s.round.index >= spec_round_count(s.round.kind) {
        s.round.index
    } else {
        (s.round.index + 1) as u32
    }
}

/// Where an opened payload goes: the position of its sender, or the reason
/// for which it is turned away. The category must be the one of the round
/// the envelope names; the sender must be a sender of the run other than
/// this party, and this party must be in the audience; and the slot must
/// still be empty.
pub open spec fn spec_place_payload(s: SessionView, m: MessageView) -> Result<int, Error> {
    let parties = s.round.parties;
    let slots = if m.round == s.round.index {
        s.received
    } else {
        s.pending
    };
    if m.kind != spec_category(s.round.kind, m.round) {
        Err(
            Error::Remote(
                RemoteError { party: m.sender, error: RemoteErrorEnum::UnexpectedMessage },
            ),
        )
    } else if !parties.audience.contains(parties.me) || m.sender == parties.me
        || !parties.senders.contains(m.sender) {
        Err(
            Error::Remote(RemoteError { party: m.sender, error: RemoteErrorEnum::UnexpectedSender }),
        )
    } else if slots[spec_position(parties.senders, m.sender)] is Some {
        Err(
            Error::Remote(RemoteError { party: m.sender, error: RemoteErrorEnum::DuplicateMessage }),
        )
    } else {
        Ok(spec_position(parties.senders, m.sender))
    }
}

/// The reports a confirmation holds: for every sender, by position, a
/// digest and a signature. A confirmation that does not decode to two
/// scalars per sender holds none.
pub open spec fn spec_claims(s: SessionView, m: MessageView) -> Option<Seq<Report>> {
    match spec_decode_scalars(m.payload) {
        Some(list) => if list.len() == 2 * s.round.parties.senders.len() {
            Some(
                Seq::new(
                    s.round.parties.senders.len(),
                    |p: int|
                        Report {
                            reporter: m.sender,
                            digest: list[2 * p],
                            signature: list[2 * p + 1],
                        },
                ),
            )
        } else {
            None
        },
        None => None,
    }
}

/// Whether every report carries the signature of the sender it is about.
pub open spec fn spec_claims_signed(s: SessionView, claims: Seq<Report>) -> bool {
    forall|p: int|
        0 <= p < claims.len() ==> spec_report_is_signed(
            s.session_id,
            s.round.index,
            s.round.parties.senders[p],
            #[trigger] claims[p],
        )
}

/// Where an opened confirmation goes: the position of its reporter in the
/// audience, or the reason for which it is turned away. The round must be
/// a broadcast round; the reporter must be in the audience and not this
/// party, and this party must be in the audience; the slot must still be
/// empty; the payload must decode, or its sender is provably at fault; and
/// every report must be backed by a signature, or it is an accusation
/// without proof.
pub open spec fn spec_place_confirmation(s: SessionView, m: MessageView) -> Result<int, Error> {
    let parties = s.round.parties;
    if !(spec_category(s.round.kind, s.round.index) is Broadcast) {
        Err(
            Error::Remote(
                RemoteError { party: m.sender, error: RemoteErrorEnum::UnexpectedMessage },
            ),
        )
    } else if !parties.audience.contains(parties.me) || m.sender == parties.me
        || !parties.audience.contains(m.sender) {
        Err(
            Error::Remote(RemoteError { party: m.sender, error: RemoteErrorEnum::UnexpectedSender }),
        )
    } else if s.confirmations[spec_position(parties.audience, m.sender)] is Some {
        Err(
            Error::Remote(RemoteError { party: m.sender, error: RemoteErrorEnum::DuplicateMessage }),
        )
    } else {
        match spec_claims(s, m) {
            None => Err(
                Error::Provable(ProvableError { party: m.sender, fault: Fault::CannotDeserialize }),
            ),
            Some(claims) => if !spec_claims_signed(s, claims) {
                Err(
                    Error::Remote(
                        RemoteError {
                            party: m.sender,
                            error: RemoteErrorEnum::UnsubstantiatedClaim,
                        },
                    ),
                )
            } else {
                Ok(spec_position(parties.audience, m.sender))
            },
        }
    }
}

/// What handing an envelope to a session does and returns.
///
/// A finished session takes nothing. An envelope that does not open is
/// turned away as a provable fault of the sender it claims, and leaves no
/// trace. Every envelope that opens is recorded in the transcript. It is
/// filed if it has a place, and turned away with the reason otherwise.
pub open spec fn spec_add_message(s: SessionView, m: MessageView) -> (SessionView, Result<(), Error>) {
    if s.finished {
        (s, Err(Error::Local(LocalError::SessionFinished)))
    } else {
        match spec_open(m, s.session_id, s.round.index, spec_last_accepted(s, m.kind)) {
            Err(e) => (s, Err(Error::spec_from_authentication(e))),
            Ok(payload) => {
                let logged = SessionView { transcript: s.transcript.push(m), ..s };
                if m.kind is Confirmation {
                    match spec_place_confirmation(s, m) {
                        Err(e) => (logged, Err(e)),
                        Ok(q) => (
                            SessionView {
                                confirmations: s.confirmations.update(q, spec_claims(s, m)),
                                ..logged
                            },
                            Ok(()),
                        ),
                    }
                } else {
                    match spec_place_payload(s, m) {
                        Err(e) => (logged, Err(e)),
                        Ok(p) => {
                            let filed = Some(
                                ReceivedView { payload: m.payload, signature: m.signature },
                            );
                            if m.round == s.round.index {
                                (
                                    SessionView { received: s.received.update(p, filed), ..logged },
                                    Ok(()),
                                )
                            } else {
                                (
                                    SessionView { pending: s.pending.update(p, filed), ..logged },
                                    Ok(()),
                                )
                            }
                        },
                    }
                }
            },
        }
    }
}

/// Whether the payload of every expected sender is there.
pub open spec fn spec_payloads_complete(s: SessionView) -> bool {
    s.round.parties.audience.contains(s.round.parties.me) ==> forall|p: int|
        0 <= p < s.round.parties.senders.len() && s.round.parties.senders[p]
            != s.round.parties.me ==> (#[trigger] s.received[p]) is Some
}

/// Whether this round's broadcasts are subject to consensus for this party.
pub open spec fn spec_needs_consensus(s: SessionView) -> bool {
    s.round.parties.audience.contains(s.round.parties.me) && spec_category(
        s.round.kind,
        s.round.index,
    ) is Broadcast
}

/// Whether the confirmation of every other member of the audience is there,
/// if the round needs them.
pub open spec fn spec_confirmations_complete(s: SessionView) -> bool {
    spec_needs_consensus(s) ==> forall|q: int|
        0 <= q < s.round.parties.audience.len() && s.round.parties.audience[q]
            != s.round.parties.me ==> (#[trigger] s.confirmations[q]) is Some
}

/// Whether the round can be finalized: the session is still running and the
/// round has everything it expects.
pub open spec fn spec_can_finalize(s: SessionView) -> bool {
    !s.finished && spec_payloads_complete(s) && spec_confirmations_complete(s)
}

/// This party's own account of the broadcast of the sender at position
/// `p`: for its own broadcast, the payload it sends and its signature on it;
/// for another sender's, the payload it received and the signature that
/// came with it.
pub open spec fn spec_own_report(s: SessionView, p: int) -> Report {
    let parties = s.round.parties;
    if parties.senders[p] == parties.me {
        let d = spec_digest(spec_payload(s.round, 0));
        Report {
            reporter: parties.me,
            digest: d,
            signature: spec_sign(
                s.secret,
                spec_challenge(s.session_id, s.round.index, parties.me, PayloadKind::Broadcast, d),
            ),
        }
    } else {
        Report {
            reporter: parties.me,
            digest: spec_digest(s.received[p]->0.payload),
            signature: s.received[p]->0.signature,
        }
    }
}

/// The reports about the sender at position `p`, one per member of the
/// audience in canonical order: this party's own, and what the others
/// confirmed.
pub open spec fn spec_reports(s: SessionView, p: int) -> Seq<Report> {
    Seq::new(
        s.round.parties.audience.len(),
        |q: int|
            if s.round.parties.audience[q] == s.round.parties.me {
                spec_own_report(s, p)
            } else {
                s.confirmations[q]->0[p]
            },
    )
}

/// Every report the session holds about the broadcast of `sender`, once
/// the payloads and confirmations of a broadcast round are all there.
pub open spec fn spec_reports_about(s: SessionView, sender: u64) -> Option<Seq<Report>> {
    if spec_needs_consensus(s) && spec_payloads_complete(s) && spec_confirmations_complete(s)
        && s.round.parties.senders.contains(sender) {
        Some(spec_reports(s, spec_position(s.round.parties.senders, sender)))
    } else {
        None
    }
}

/// The verdict of consensus on the sender at position `p`.
pub open spec fn spec_consensus_at(s: SessionView, p: int) -> Result<(), ConsensusError> {
    spec_verify_consensus(
        s.session_id,
        s.round.index,
        s.round.parties.senders[p],
        spec_reports(s, p),
    )
}

/// The fault of the first sender, in canonical order, whose broadcast fails
/// consensus.
pub open spec fn spec_consensus_fault(s: SessionView) -> Option<ConsensusError> {
    let at = spec_first_index(
        |p: int| spec_consensus_at(s, p) is Err,
        0,
        s.round.parties.senders.len() as int,
    );
    if at < s.round.parties.senders.len() {
        Some(spec_consensus_at(s, at)->Err_0)
    } else {
        None
    }
}

/// The payloads held in the slots of a session.
pub open spec fn spec_payload_slots(received: Seq<Option<ReceivedView>>) -> Seq<Option<Seq<u8>>> {
    Seq::new(
        received.len(),
        |p: int|
            match received[p] {
                Some(r) => Some(r.payload),
                None => None,
            },
    )
}

/// What finalizing does to a session and returns.
///
/// A finished session stays as it is and reports that it is finished. A
/// round that is not complete stays as it is and reports that it is not
/// ready. Otherwise the round is left for good: a broadcast that fails
/// consensus ends the session with a provable error against its sender; if
/// all pass, the round is finalized on the payloads received, and the
/// session either moves to the next round, where the payloads that came
/// early are waiting, or ends with the protocol's result or error.
pub open spec fn spec_session_finalize(s: SessionView) -> (SessionView, FinalizeOutcomeView) {
    if s.finished {
        (s, FinalizeOutcomeView::Error(Error::Local(LocalError::SessionFinished)))
    } else if !spec_can_finalize(s) {
        (s, FinalizeOutcomeView::Error(Error::Local(LocalError::NotReady)))
    } else if spec_needs_consensus(s) && spec_consensus_fault(s) is Some {
        (
            SessionView { finished: true, ..s },
            FinalizeOutcomeView::Error(Error::spec_from_consensus(spec_consensus_fault(s)->0)),
        )
    } else {
        match spec_finalize(s.round, spec_payload_slots(s.received)) {
            FinalizeOutcomeView::AnotherRound(next) => (
                SessionView {
                    round: next,
                    received: s.pending,
                    pending: Seq::new(s.round.parties.senders.len(), |p: int| None),
                    confirmations: Seq::new(s.round.parties.audience.len(), |q: int| None),
                    payloads_sent: false,
                    confirmations_sent: false,
                    ..s
                },
                FinalizeOutcomeView::AnotherRound(next),
            ),
            other => (SessionView { finished: true, ..s }, other),
        }
    }
}

/// The parties this party sends to: the audience without itself.
pub open spec fn spec_recipients(parties: PartiesView) -> Seq<u64> {
    if parties.audience.contains(parties.me) {
        parties.audience.remove(spec_position(parties.audience, parties.me))
    } else {
        parties.audience
    }
}

/// A batch of envelopes of one category, one per recipient in canonical
/// order, sealed by this party for the current round. `payloads` gives the
/// payload for each position of the audience.
pub open spec fn spec_batch(
    s: SessionView,
    kind: PayloadKind,
    payloads: spec_fn(int) -> Seq<u8>,
) -> Seq<OutgoingView> {
    let recipients = spec_recipients(s.round.parties);
    Seq::new(
        recipients.len(),
        |k: int|
            OutgoingView {
                recipient: recipients[k],
                message: spec_seal(
                    s.session_id,
                    s.round.index,
                    s.round.parties.me,
                    kind,
                    payloads(spec_position(s.round.parties.audience, recipients[k])),
                    s.secret,
                ),
            },
    )
}

/// The scalars of this party's confirmation: digest and signature of its
/// own report about every sender, by position.
pub open spec fn spec_confirmation_scalars(s: SessionView) -> Seq<u64> {
    Seq::new(
        2 * s.round.parties.senders.len(),
        |i: int|
            if i % 2 == 0 {
                spec_own_report(s, i / 2).digest
            } else {
                spec_own_report(s, i / 2).signature
            },
    )
}

/// What asking a session for its outgoing messages does and returns.
///
/// Each round has one batch of payloads, handed out the first time it is
/// asked for. A broadcast round has a second batch, the confirmations,
/// handed out once, as soon as the payloads of all expected senders are
/// there. At any other time there is nothing to send.
pub open spec fn spec_outgoing(s: SessionView) -> (SessionView, Seq<OutgoingView>) {
    if s.finished {
        (s, Seq::empty())
    } else if !s.payloads_sent {
        (
            SessionView { payloads_sent: true, ..s },
            if s.round.parties.senders.contains(s.round.parties.me) {
                spec_batch(
                    s,
                    spec_category(s.round.kind, s.round.index),
                    |q: int| spec_payload(s.round, q),
                )
            } else {
                Seq::empty()
            },
        )
    } else if spec_needs_consensus(s) && !s.confirmations_sent && spec_payloads_complete(s) {
        (
            SessionView { confirmations_sent: true, ..s },
            spec_batch(
                s,
                PayloadKind::Confirmation,
                |q: int| spec_encode_scalars(spec_confirmation_scalars(s)),
            ),
        )
    } else {
        (s, Seq::empty())
    }
}

/// The envelopes of a transcript that name `party` as their sender, in the
/// order in which they were recorded.
pub open spec fn spec_from_party(transcript: Seq<MessageView>, party: u64) -> Seq<MessageView>
    decreases transcript.len(),
{
    if transcript.len() == 0 {
        Seq::empty()
    } else if transcript.last().sender == party {
        spec_from_party(transcript.drop_last(), party).push(transcript.last())
    } else {
        spec_from_party(transcript.drop_last(), party)
    }
}

/// A vector of `n` empty slots.
fn empty<T>(n: usize) -> (slots: Vec<Option<T>>)
    ensures
        slots@.len() == n,
        forall|k: int| 0 <= k < n ==> (#[trigger] slots@[k]) is None,
{
    let mut slots: Vec<Option<T>> = Vec::new();
    let mut i: usize = 0;
    while i < n
        invariant
            i <= n,
            slots@.len() == i,
            forall|k: int| 0 <= k < i ==> (#[trigger] slots@[k]) is None,
        decreases n - i,
    {
        slots.push(None);
        i = i + 1;
    }
    slots
}

/// A vector of empty payload slots.
fn empty_slots(n: usize) -> (slots: Vec<Option<Received>>)
    ensures
        slots@.len() == n,
        spec_received_view(slots@) == Seq::new(n as nat, |p: int| None::<ReceivedView>),
{
    let slots = empty::<Received>(n);
    proof {
        assert(spec_received_view(slots@) =~= Seq::new(n as nat, |p: int| None::<ReceivedView>));
    }
    slots
}

/// A vector of empty confirmation slots.
fn empty_confirmations(n: usize) -> (slots: Vec<Option<Vec<Report>>>)
    ensures
        slots@.len() == n,
        spec_confirmations_view(slots@) == Seq::new(n as nat, |p: int| None::<Seq<Report>>),
{
    let slots = empty::<Vec<Report>>(n);
    proof {
        assert(spec_confirmations_view(slots@) =~= Seq::new(
            n as nat,
            |p: int| None::<Seq<Report>>,
        ));
    }
    slots
}

impl Session {
    #[verifier::type_invariant]
    spec fn well_formed(self) -> bool {
        spec_session_wf(self@)
    }

    /// Whether the session is well formed. Every session is, at all times.
    pub open spec fn wf(&self) -> bool {
        spec_session_wf(self@)
    }

    /// Recalls that the session is well formed.
    pub fn recall(&self)
        ensures
            self.wf(),
    {
        proof {
            use_type_invariant(self);
        }
    }

    /// Records an envelope in the transcript.
    fn record(&mut self, message: SignedMessage)
        ensures
            final(self)@ == (SessionView {
                transcript: old(self)@.transcript.push(message@),
                ..old(self)@
            }),
    {
        proof {
            use_type_invariant(&*self);
        }
        let ghost before = self@;
        let ghost m = message@;
        let mut transcript: Vec<SignedMessage> = Vec::new();
        core::mem::swap(&mut self.transcript, &mut transcript);
        transcript.push(message);
        self.transcript = transcript;
        proof {
            assert(self@.transcript =~= before.transcript.push(m));
            assert(self@.received =~= before.received);
            assert(self@.pending =~= before.pending);
            assert(self@.confirmations =~= before.confirmations);
        }
    }

    /// Files a payload in the slot of the sender at position `p`, for the
    /// current round or for the next.
    fn file_payload(&mut self, p: usize, filed: Received, current: bool)
        requires
            p < old(self)@.round.parties.senders.len(),
            spec_slots_wf(
                old(self)@,
                (if current {
                    old(self)@.received
                } else {
                    old(self)@.pending
                }).update(p as int, Some(filed@)),
                (if current {
                    old(self)@.round.index
                } else {
                    (old(self)@.round.index + 1) as u32
                }),
            ),
        ensures
            final(self)@ == (if current {
                SessionView {
                    received: old(self)@.received.update(p as int, Some(filed@)),
                    ..old(self)@
                }
            } else {
                SessionView {
                    pending: old(self)@.pending.update(p as int, Some(filed@)),
                    ..old(self)@
                }
            }),
    {
        proof {
            use_type_invariant(&*self);
        }
        let ghost before = self@;
        let ghost filed_view = filed@;
        let n = self.round.parties().senders().len();
        let mut slots = empty_slots(n);
        if current {
            core::mem::swap(&mut self.received, &mut slots);
            slots.set(p, Some(filed));
            proof {
                assert(spec_received_view(slots@) =~= before.received.update(
                    p as int,
                    Some(filed_view),
                ));
            }
            self.received = slots;
        } else {
            core::mem::swap(&mut self.pending, &mut slots);
            slots.set(p, Some(filed));
            proof {
                assert(spec_received_view(slots@) =~= before.pending.update(
                    p as int,
                    Some(filed_view),
                ));
            }
            self.pending = slots;
        }
        proof {
            assert(self@.confirmations =~= before.confirmations);
            assert(self@.transcript =~= before.transcript);
            if current {
                assert(self@.pending =~= before.pending);
            } else {
                assert(self@.received =~= before.received);
            }
        }
    }

    /// Files the reports of the member of the audience at position `q`.
    fn file_confirmation(&mut self, q: usize, claims: Vec<Report>)
        requires
            q < old(self)@.round.parties.audience.len(),
            old(self)@.round.parties.audience[q as int] != old(self)@.round.parties.me,
            claims@.len() == old(self)@.round.parties.senders.len(),
            spec_claims_signed(old(self)@, claims@),
            forall|k: int|
                0 <= k < claims@.len() ==> (#[trigger] claims@[k]).reporter
                    == old(self)@.round.parties.audience[q as int],
        ensures
            final(self)@ == (SessionView {
                confirmations: old(self)@.confirmations.update(q as int, Some(claims@)),
                ..old(self)@
            }),
    {
        proof {
            use_type_invariant(&*self);
        }
        let ghost before = self@;
        let ghost reports = claims@;
        let n = self.round.parties().audience().len();
        let mut slots = empty_confirmations(n);
        core::mem::swap(&mut self.confirmations, &mut slots);
        slots.set(q, Some(claims));
        proof {
            assert(spec_confirmations_view(slots@) =~= before.confirmations.update(
                q as int,
                Some(reports),
            ));
        }
        self.confirmations = slots;
        proof {
            assert(self@.received =~= before.received);
            assert(self@.pending =~= before.pending);
            assert(self@.transcript =~= before.transcript);
        }
    }

    /// A session that drives `round` and everything after it under the given
    /// session identifier, signing with `key`. Fails if `key` is not the key
    /// of the party the round belongs to.
    pub fn from_round(session_id: u64, key: SigningKey, round: Round) -> (r: Result<
        Session,
        LocalError,
    >)
        ensures
            match r {
                Ok(session) => session.wf() && session@ == spec_initial(
                    session_id,
                    key.spec_secret(),
                    round@,
                ) && round@.parties.me == key.spec_verifying_key(),
                Err(e) => e == LocalError::NotAParticipant && round@.parties.me
                    != key.spec_verifying_key(),
            },
    {
        round.recall();
        if key.verifying_key() != round.parties().me() {
            return Err(LocalError::NotAParticipant);
        }
        let senders = round.parties().senders().len();
        let audience = round.parties().audience().len();
        let session = Session {
            session_id,
            key,
            round,
            received: empty_slots(senders),
            pending: empty_slots(senders),
            confirmations: empty_confirmations(audience),
            payloads_sent: false,
            confirmations_sent: false,
            finished: false,
            transcript: Vec::new(),
        };
        proof {
            assert(session@.transcript =~= Seq::empty());
        }
        Ok(session)
    }

    /// Draws a fresh session identifier. All parties of a run use the same
    /// identifier; one of them draws it and tells the others.
    pub fn fresh_id(rng: &mut OsRng) -> (r: Result<u64, LocalError>)
        ensures
            r matches Err(e) ==> e == LocalError::RandomnessUnavailable,
    {
        crate::tools::random::random_scalar(rng)
    }

    /// Starts the protocol of `entry` for the party that holds `key`, with
    /// the given randomness. The party's identity is the verifying key of
    /// `key`. Fails, as a local error, for the reason for which the entry
    /// point turns the party away or for want of randomness.
    pub fn with_randomness(
        session_id: u64,
        key: SigningKey,
        entry: &EntryPoint,
        randomness: &mut Randomness,
    ) -> (r: Result<Session, LocalError>)
        ensures
            match r {
                Ok(session) => session.wf() && spec_start(
                    entry@,
                    key.spec_verifying_key(),
                    old(randomness)@,
                ) is Ok && session@ == spec_initial(
                    session_id,
                    key.spec_secret(),
                    spec_start(entry@, key.spec_verifying_key(), old(randomness)@)->Ok_0,
                ),
                Err(e) => spec_start(entry@, key.spec_verifying_key(), old(randomness)@) == Err::<
                    RoundView,
                    LocalError,
                >(e),
            },
    {
        let me = key.verifying_key();
        match entry.first_round(me, randomness) {
            Err(e) => Err(e),
            Ok(round) => {
                proof {
                    assert(round@.parties.me == me);
                }
                Session::from_round(session_id, key, round)
            },
        }
    }

    /// Starts the protocol of `entry` for the party that holds `key`,
    /// drawing the randomness the party needs from the operating system.
    ///
    /// A party the entry point turns away is turned away here for the same
    /// reason, and nothing is drawn. For a party that is admitted, the only
    /// failure is the want of randomness, and a party that needs none always
    /// gets its session; the session is in the initial state of the first
    /// round that the entry point yields for what was drawn.
    pub fn new(rng: &mut OsRng, session_id: u64, key: SigningKey, entry: &EntryPoint) -> (r: Result<
        Session,
        LocalError,
    >)
        ensures
            spec_admission(entry@, key.spec_verifying_key()) is None && spec_randomness_needed(
                entry@,
                key.spec_verifying_key(),
            ) == 0 ==> r is Ok,
            match spec_admission(entry@, key.spec_verifying_key()) {
                Some(e) => r == Err::<Session, LocalError>(e),
                None => match r {
                    Ok(session) => session.wf() && exists|drawn: Seq<u64>|
                        #[trigger] spec_start(entry@, key.spec_verifying_key(), drawn) is Ok
                            && drawn.len() == spec_randomness_needed(
                            entry@,
                            key.spec_verifying_key(),
                        ) && session@ == spec_initial(
                            session_id,
                            key.spec_secret(),
                            spec_start(entry@, key.spec_verifying_key(), drawn)->Ok_0,
                        ),
                    Err(e) => e == LocalError::RandomnessUnavailable,
                },
            },
    {
        let me = key.verifying_key();
        match entry.admission(me) {
            Some(e) => {
                return Err(e);
            },
            None => {},
        }
        let count = entry.randomness_needed(me);
        match Randomness::from_os(rng, count) {
            Err(e) => Err(e),
            Ok(randomness) => {
                let mut randomness = randomness;
                let ghost drawn = randomness@;
                proof {
                    lemma_start_fails_for_two_reasons(entry@, me, drawn);
                }
                let r = Session::with_randomness(session_id, key, entry, &mut randomness);
                proof {
                    assert(r is Ok);
                    assert(spec_start(entry@, key.spec_verifying_key(), drawn) is Ok);
                }
                r
            },
        }
    }

    /// The identifier of the session.
    pub fn session_id(&self) -> (id: u64)
        ensures
            id == self@.session_id,
    {
        self.session_id
    }

    /// The round the session is in.
    pub fn round(&self) -> (round: &Round)
        ensures
            round@ == self@.round,
    {
        &self.round
    }

    /// Whether the session has reached its outcome.
    pub fn is_finished(&self) -> (finished: bool)
        ensures
            finished == self@.finished,
    {
        self.finished
    }

    /// Whether the payload of every expected sender is there.
    fn payloads_complete(&self) -> (complete: bool)
        ensures
            complete == spec_payloads_complete(self@),
    {
        self.recall();
        let parties = self.round.parties();
        if !parties.listens() {
            return true;
        }
        let n = parties.senders().len();
        let me = parties.me();
        let mut p: usize = 0;
        while p < n
            invariant
                p <= n,
                self.wf(),
                parties@ == self@.round.parties,
                n == parties@.senders.len(),
                me == parties@.me,
                parties@.audience.contains(me),
                forall|k: int|
                    0 <= k < p && parties@.senders[k] != me ==> (#[trigger] self@.received[k])
                        is Some,
            decreases n - p,
        {
            let sender = parties.senders().at(p);
            if sender != me {
                match &self.received[p] {
                    None => {
                        assert(self@.received[p as int] is None);
                        return false;
                    },
                    Some(_) => {
                        assert(self@.received[p as int] is Some);
                    },
                }
            }
            p = p + 1;
        }
        true
    }

    /// Whether the confirmation of every other member of the audience is
    /// there, if the round needs them.
    fn confirmations_complete(&self) -> (complete: bool)
        ensures
            complete == spec_confirmations_complete(self@),
    {
        self.recall();
        let parties = self.round.parties();
        if !parties.listens() || !self.round.requires_consensus() {
            return true;
        }
        let n = parties.audience().len();
        let me = parties.me();
        let mut q: usize = 0;
        while q < n
            invariant
                q <= n,
                self.wf(),
                parties@ == self@.round.parties,
                n == parties@.audience.len(),
                me == parties@.me,
                spec_needs_consensus(self@),
                forall|k: int|
                    0 <= k < q && parties@.audience[k] != me ==> (
                    #[trigger] self@.confirmations[k]) is Some,
            decreases n - q,
        {
            let member = parties.audience().at(q);
            if member != me {
                match &self.confirmations[q] {
                    None => {
                        assert(self@.confirmations[q as int] is None);
                        return false;
                    },
                    Some(_) => {
                        assert(self@.confirmations[q as int] is Some);
                    },
                }
            }
            q = q + 1;
        }
        true
    }

    /// Whether the current round can be finalized.
    pub fn can_finalize(&self) -> (ready: bool)
        ensures
            ready == spec_can_finalize(self@),
    {
        self.recall();
        !self.finished && self.payloads_complete() && self.confirmations_complete()
    }

    /// Finds the place of an opened payload.
    fn place_payload(&self, message: &SignedMessage) -> (r: Result<usize, Error>)
        ensures
            match r {
                Ok(p) => spec_place_payload(self@, message@) == Ok::<int, Error>(p as int) && p
                    < self@.round.parties.senders.len() && self@.round.parties.senders[p as int]
                    == message@.sender && message@.sender != self@.round.parties.me,
                Err(e) => spec_place_payload(self@, message@) == Err::<int, Error>(e),
            },
    {
        self.recall();
        let parties = self.round.parties();
        let sender = message.sender;
        let expected = crate::protocols::round::category(self.round.kind(), message.round);
        if message.kind != expected {
            return Err(
                Error::Remote(
                    RemoteError { party: sender, error: RemoteErrorEnum::UnexpectedMessage },
                ),
            );
        }
        if !parties.listens() || sender == parties.me() {
            return Err(
                Error::Remote(
                    RemoteError { party: sender, error: RemoteErrorEnum::UnexpectedSender },
                ),
            );
        }
        match parties.senders().position(sender) {
            None => Err(
                Error::Remote(
                    RemoteError { party: sender, error: RemoteErrorEnum::UnexpectedSender },
                ),
            ),
            Some(p) => {
                let taken = if message.round == self.round.index() {
                    self.received[p].is_some()
                } else {
                    self.pending[p].is_some()
                };
                proof {
                    assert(self@.received[p as int] is Some == self.received@[p as int] is Some);
                    assert(self@.pending[p as int] is Some == self.pending@[p as int] is Some);
                }
                if taken {
                    Err(
                        Error::Remote(
                            RemoteError { party: sender, error: RemoteErrorEnum::DuplicateMessage },
                        ),
                    )
                } else {
                    Ok(p)
                }
            },
        }
    }

    /// Reads the reports of a confirmation.
    fn read_claims(&self, message: &SignedMessage) -> (claims: Option<Vec<Report>>)
        ensures
            match claims {
                Some(list) => spec_claims(self@, message@) == Some(list@),
                None => spec_claims(self@, message@) is None,
            },
    {
        self.recall();
        let n = self.round.parties().senders().len();
        let list = match decode_scalars(&message.payload) {
            Some(list) => list,
            None => {
                return None;
            },
        };
        let total: usize = list.len();
        if total % 2 != 0 || total / 2 != n {
            return None;
        }
        let ghost target = spec_claims(self@, message@)->0;
        let mut claims: Vec<Report> = Vec::new();
        let mut p: usize = 0;
        while p < n
            invariant
                p <= n,
                total == list@.len(),
                total == 2 * n,
                n == self@.round.parties.senders.len(),
                spec_claims(self@, message@) == Some(target),
                spec_decode_scalars(message@.payload) == Some(list@),
                claims@ == target.take(p as int),
            decreases n - p,
        {
            claims.push(
                Report {
                    reporter: message.sender,
                    digest: list[2 * p],
                    signature: list[2 * p + 1],
                },
            );
            proof {
                assert(target.take(p + 1) =~= target.take(p as int).push(target[p as int]));
            }
            p = p + 1;
        }
        proof {
            assert(target.take(p as int) =~= target);
        }
        Some(claims)
    }

    /// Decides whether every report carries the signature of the sender it
    /// is about.
    fn claims_signed(&self, claims: &Vec<Report>) -> (signed: bool)
        requires
            claims@.len() == self@.round.parties.senders.len(),
        ensures
            signed == spec_claims_signed(self@, claims@),
    {
        self.recall();
        let parties = self.round.parties();
        let n = claims.len();
        let index = self.round.index();
        let mut p: usize = 0;
        while p < n
            invariant
                p <= n,
                n == claims@.len(),
                n == self@.round.parties.senders.len(),
                parties@ == self@.round.parties,
                index == self@.round.index,
                forall|k: int|
                    0 <= k < p ==> spec_report_is_signed(
                        self@.session_id,
                        index,
                        parties@.senders[k],
                        #[trigger] claims@[k],
                    ),
            decreases n - p,
        {
            let sender = parties.senders().at(p);
            let report = claims[p];
            let c = challenge(self.session_id, index, sender, PayloadKind::Broadcast, report.digest);
            if !verifies(sender, c, report.signature) {
                assert(!spec_report_is_signed(
                    self@.session_id,
                    index,
                    parties@.senders[p as int],
                    claims@[p as int],
                ));
                return false;
            }
            p = p + 1;
        }
        true
    }

    /// Finds the place of an opened confirmation and reads its reports.
    fn place_confirmation(&self, message: &SignedMessage) -> (r: Result<(usize, Vec<Report>), Error>)
        ensures
            match r {
                Ok((q, claims)) => spec_place_confirmation(self@, message@) == Ok::<int, Error>(
                    q as int,
                ) && q < self@.round.parties.audience.len() && self@.round.parties.audience[q as int]
                    == message@.sender && message@.sender != self@.round.parties.me && spec_claims(
                    self@,
                    message@,
                ) == Some(claims@) && spec_claims_signed(self@, claims@),
                Err(e) => spec_place_confirmation(self@, message@) == Err::<int, Error>(e),
            },
    {
        self.recall();
        let parties = self.round.parties();
        let sender = message.sender;
        if !self.round.requires_consensus() {
            return Err(
                Error::Remote(
                    RemoteError { party: sender, error: RemoteErrorEnum::UnexpectedMessage },
                ),
            );
        }
        if !parties.listens() || sender == parties.me() {
            return Err(
                Error::Remote(
                    RemoteError { party: sender, error: RemoteErrorEnum::UnexpectedSender },
                ),
            );
        }
        let q = match parties.audience().position(sender) {
            None => {
                return Err(
                    Error::Remote(
                        RemoteError { party: sender, error: RemoteErrorEnum::UnexpectedSender },
                    ),
                );
            },
            Some(q) => q,
        };
        proof {
            assert(self@.confirmations[q as int] is Some == self.confirmations@[q as int] is Some);
        }
        if self.confirmations[q].is_some() {
            return Err(
                Error::Remote(
                    RemoteError { party: sender, error: RemoteErrorEnum::DuplicateMessage },
                ),
            );
        }
        match self.read_claims(message) {
            None => Err(
                Error::Provable(ProvableError { party: sender, fault: Fault::CannotDeserialize }),
            ),
            Some(claims) => {
                if !self.claims_signed(&claims) {
                    Err(
                        Error::Remote(
                            RemoteError {
                                party: sender,
                                error: RemoteErrorEnum::UnsubstantiatedClaim,
                            },
                        ),
                    )
                } else {
                    Ok((q, claims))
                }
            },
        }
    }

    /// Hands an envelope to the session.
    ///
    /// The envelope is opened for this session and the rounds it currently
    /// accepts; one that does not open is a provable fault of the sender it
    /// claims. An envelope that opens is recorded in the transcript and
    /// filed under its sender, for the current round or the next. It is
    /// turned away, with the session otherwise unchanged, if its category
    /// does not fit its round, if its sender is not expected, if its slot is
    /// taken, or, for a confirmation, if it does not decode or reports a
    /// broadcast without its sender's signature. The payload that completes
    /// a broadcast round makes this party's confirmations due; the message
    /// that completes the round makes it ready to be finalized.
    #[verifier::rlimit(20)]
    pub fn add_message(&mut self, message: SignedMessage) -> (r: Result<(), Error>)
        ensures
            final(self).wf(),
            (final(self)@, r) == spec_add_message(old(self)@, message@),
    {
        proof {
            use_type_invariant(&*self);
        }
        if self.finished {
            return Err(Error::Local(LocalError::SessionFinished));
        }
        let index = self.round.index();
        let is_confirmation = match message.kind {
            PayloadKind::Confirmation => true,
            _ => false,
        };
        let last: u32 = if is_confirmation || index >= round_count(self.round.kind()) {
            index
        } else {
            index + 1
        };
        match message.open(self.session_id, index, last) {
            Err(e) => {
                return Err(Error::from_authentication(e));
            },
            Ok(_) => {},
        }
        let ghost before = self@;
        let ghost m = message@;
        assert(spec_authentic(m));
        if is_confirmation {
            match self.place_confirmation(&message) {
                Err(e) => {
                    self.record(message);
                    Err(e)
                },
                Ok((q, claims)) => {
                    proof {
                        let reports = claims@;
                        assert forall|k: int| 0 <= k < reports.len() implies (
                        #[trigger] reports[k]).reporter == m.sender by {}
                    }
                    self.file_confirmation(q, claims);
                    self.record(message);
                    Ok(())
                },
            }
        } else {
            match self.place_payload(&message) {
                Err(e) => {
                    self.record(message);
                    Err(e)
                },
                Ok(p) => {
                    let filed = Received {
                        payload: copy_bytes(&message.payload),
                        signature: message.signature,
                    };
                    let current = message.round == index;
                    self.file_payload(p, filed, current);
                    self.record(message);
                    Ok(())
                },
            }
        }
    }

    /// This party's own account of the broadcast of the sender at position
    /// `p`.
    fn own_report(&self, p: usize) -> (report: Report)
        requires
            p < self@.round.parties.senders.len(),
            self@.round.parties.senders[p as int] != self@.round.parties.me ==> self@.received[p as int]
                is Some,
        ensures
            report == spec_own_report(self@, p as int),
            spec_report_is_signed(
                self@.session_id,
                self@.round.index,
                self@.round.parties.senders[p as int],
                report,
            ) || !(spec_category(self@.round.kind, self@.round.index) is Broadcast),
    {
        self.recall();
        let parties = self.round.parties();
        let me = parties.me();
        let sender = parties.senders().at(p);
        if sender == me {
            let d = digest(&self.round.payload(0));
            let c = challenge(self.session_id, self.round.index(), me, PayloadKind::Broadcast, d);
            Report { reporter: me, digest: d, signature: self.key.sign(c) }
        } else {
            assert(self@.received[p as int] is Some);
            match &self.received[p] {
                Some(r) => {
                    assert(self@.received[p as int]->0 == r@);
                    Report { reporter: me, digest: digest(&r.payload), signature: r.signature }
                },
                None => {
                    assert(false);
                    Report { reporter: me, digest: 0, signature: 0 }
                },
            }
        }
    }

    /// The reports about the sender at position `p`.
    fn reports(&self, p: usize) -> (reports: Vec<Report>)
        requires
            spec_payloads_complete(self@),
            spec_confirmations_complete(self@),
            spec_needs_consensus(self@),
            p < self@.round.parties.senders.len(),
        ensures
            reports@ == spec_reports(self@, p as int),
    {
        self.recall();
        let parties = self.round.parties();
        let me = parties.me();
        let n = parties.audience().len();
        let own = self.own_report(p);
        let ghost target = spec_reports(self@, p as int);
        let mut reports: Vec<Report> = Vec::new();
        let mut q: usize = 0;
        while q < n
            invariant
                q <= n,
                self.wf(),
                spec_payloads_complete(self@),
                spec_confirmations_complete(self@),
                spec_needs_consensus(self@),
                parties@ == self@.round.parties,
                me == parties@.me,
                n == parties@.audience.len(),
                p < parties@.senders.len(),
                own == spec_own_report(self@, p as int),
                target == spec_reports(self@, p as int),
                reports@ == target.take(q as int),
            decreases n - q,
        {
            let member = parties.audience().at(q);
            if member == me {
                reports.push(own);
            } else {
                assert(self@.confirmations[q as int] is Some);
                match &self.confirmations[q] {
                    Some(claims) => {
                        assert(self@.confirmations[q as int]->0 == claims@);
                        reports.push(claims[p]);
                    },
                    None => {
                        assert(false);
                    },
                }
            }
            proof {
                assert(target.take(q + 1) =~= target.take(q as int).push(target[q as int]));
            }
            q = q + 1;
        }
        proof {
            assert(target.take(q as int) =~= target);
        }
        reports
    }

    /// Exports every report the session holds about the broadcast of
    /// `sender` in the current round: one per member of the audience, in
    /// canonical order, this party's own among them. There is something to
    /// export once the payloads and the confirmations of a broadcast round
    /// are all there, whether or not the round has been finalized since. An
    /// error of consensus names two of these reports; this is the whole
    /// set.
    pub fn reports_about(&self, sender: u64) -> (exported: Option<Vec<Report>>)
        ensures
            match exported {
                Some(reports) => spec_reports_about(self@, sender) == Some(reports@),
                None => spec_reports_about(self@, sender) is None,
            },
    {
        self.recall();
        let parties = self.round.parties();
        if !parties.listens() || !self.round.requires_consensus() {
            return None;
        }
        if !self.payloads_complete() || !self.confirmations_complete() {
            return None;
        }
        match parties.senders().position(sender) {
            Some(p) => Some(self.reports(p)),
            None => None,
        }
    }

    /// Runs consensus on every sender's broadcast, in canonical order.
    fn consensus_fault(&self) -> (fault: Option<ConsensusError>)
        requires
            spec_can_finalize(self@),
            spec_needs_consensus(self@),
        ensures
            fault == spec_consensus_fault(self@),
    {
        self.recall();
        let parties = self.round.parties();
        let n = parties.senders().len();
        let index = self.round.index();
        let ghost bad = |p: int| spec_consensus_at(self@, p) is Err;
        proof {
            lemma_first_index(bad, 0, n as int);
        }
        let mut p: usize = 0;
        while p < n
            invariant
                p <= n,
                self.wf(),
                spec_can_finalize(self@),
                spec_needs_consensus(self@),
                parties@ == self@.round.parties,
                n == parties@.senders.len(),
                index == self@.round.index,
                bad == |p: int| spec_consensus_at(self@, p) is Err,
                spec_first_index(bad, 0, n as int) == spec_first_index(bad, p as int, n as int),
            decreases n - p,
        {
            let sender = parties.senders().at(p);
            let reports = self.reports(p);
            match verify_consensus(self.session_id, index, sender, &reports) {
                Err(e) => {
                    assert(bad(p as int));
                    return Some(e);
                },
                Ok(()) => {
                    assert(!bad(p as int));
                },
            }
            p = p + 1;
        }
        None
    }

    /// The payloads in the slots of the current round.
    fn payload_slots(&self) -> (slots: Vec<Option<Vec<u8>>>)
        ensures
            crate::protocols::parties::spec_slots(slots@) == spec_payload_slots(self@.received),
    {
        let ghost target = spec_payload_slots(self@.received);
        let mut slots: Vec<Option<Vec<u8>>> = Vec::new();
        let mut p: usize = 0;
        while p < self.received.len()
            invariant
                p <= self.received@.len(),
                target == spec_payload_slots(self@.received),
                slots@.len() == p,
                forall|k: int|
                    0 <= k < p ==> (match #[trigger] slots@[k] {
                        Some(bytes) => target[k] == Some(bytes@),
                        None => target[k] is None,
                    }),
            decreases self.received.len() - p,
        {
            match &self.received[p] {
                Some(r) => {
                    slots.push(Some(copy_bytes(&r.payload)));
                },
                None => {
                    slots.push(None);
                },
            }
            p = p + 1;
        }
        proof {
            assert(crate::protocols::parties::spec_slots(slots@) =~= target);
        }
        slots
    }

    /// Moves on to the next round: the payloads that came early become the
    /// payloads of the round, and all other slots are empty again.
    fn advance(&mut self, next: Round)
        requires
            spec_follows(old(self)@.round, next@),
            !old(self)@.finished,
        ensures
            final(self)@ == (SessionView {
                round: next@,
                received: old(self)@.pending,
                pending: Seq::new(old(self)@.round.parties.senders.len(), |p: int| None),
                confirmations: Seq::new(old(self)@.round.parties.audience.len(), |q: int| None),
                payloads_sent: false,
                confirmations_sent: false,
                ..old(self)@
            }),
    {
        proof {
            use_type_invariant(&*self);
        }
        next.recall();
        let ghost before = self@;
        let senders = self.round.parties().senders().len();
        let audience = self.round.parties().audience().len();
        // The payloads that came early are set aside and the slots of the
        // round that is over are cleared; only then does the next round
        // take its place.
        let mut early = empty_slots(senders);
        core::mem::swap(&mut self.pending, &mut early);
        proof {
            assert(spec_received_view(early@) =~= before.pending);
            assert(spec_slots_wf(before, before.pending, (before.round.index + 1) as u32));
            assert(self@.received =~= before.received);
            assert(self@.confirmations =~= before.confirmations);
        }
        self.received = empty_slots(senders);
        self.confirmations = empty_confirmations(audience);
        self.round = next;
        self.received = early;
        self.payloads_sent = false;
        self.confirmations_sent = false;
        proof {
            assert(self@.received =~= before.pending);
            assert(self@.transcript =~= before.transcript);
        }
    }

    /// Finalizes the current round.
    ///
    /// On a finished session, or on a round that is not complete, this is a
    /// local error and the session stays exactly as it was. Otherwise the
    /// round is left: for a broadcast round, consensus is run first and a
    /// broadcast that fails it ends the session with a provable error
    /// against its sender; if all pass, the round is finalized on the
    /// payloads received and the session moves to the next round or ends
    /// with the protocol's result or error.
    pub fn finalize(&mut self) -> (outcome: FinalizeOutcome)
        ensures
            final(self).wf(),
            (final(self)@, outcome@) == spec_session_finalize(old(self)@),
            spec_outcome_wf(outcome@),
    {
        proof {
            use_type_invariant(&*self);
        }
        if self.finished {
            return FinalizeOutcome::Error(Error::Local(LocalError::SessionFinished));
        }
        if !self.can_finalize() {
            return FinalizeOutcome::Error(Error::Local(LocalError::NotReady));
        }
        let ghost before = self@;
        if self.round.parties().listens() && self.round.requires_consensus() {
            match self.consensus_fault() {
                Some(e) => {
                    self.finished = true;
                    return FinalizeOutcome::Error(Error::from_consensus(e));
                },
                None => {},
            }
        }
        let slots = self.payload_slots();
        let outcome = self.round.finalize(&slots);
        match outcome {
            FinalizeOutcome::AnotherRound(next) => {
                let copy = next.duplicate();
                self.advance(next);
                FinalizeOutcome::AnotherRound(copy)
            },
            other => {
                self.finished = true;
                other
            },
        }
    }

    /// Seals one envelope of category `kind` for every recipient. The
    /// payload is `fixed` if given, else what the round has this party send
    /// to the recipient.
    fn batch(&self, kind: PayloadKind, fixed: Option<&Vec<u8>>) -> (batch: Vec<Outgoing>)
        ensures
            batch@.len() == spec_recipients(self@.round.parties).len(),
            forall|k: int|
                0 <= k < batch@.len() ==> (#[trigger] batch@[k])@ == spec_batch(
                    self@,
                    kind,
                    |q: int|
                        match fixed {
                            Some(bytes) => bytes@,
                            None => spec_payload(self@.round, q),
                        },
                )[k],
    {
        self.recall();
        let parties = self.round.parties();
        let me = parties.me();
        let n = parties.audience().len();
        let index = self.round.index();
        let ghost audience = parties@.audience;
        let ghost recipients = spec_recipients(parties@);
        let ghost payloads = |q: int|
            match fixed {
                Some(bytes) => bytes@,
                None => spec_payload(self@.round, q),
            };
        let ghost target = spec_batch(self@, kind, payloads);
        let listens = parties.listens();
        let ghost at = if audience.contains(me) {
            spec_position(audience, me)
        } else {
            n as int
        };
        let mut batch: Vec<Outgoing> = Vec::new();
        let mut q: usize = 0;
        while q < n
            invariant
                q <= n,
                self.wf(),
                parties@ == self@.round.parties,
                me == parties@.me,
                n == audience.len(),
                index == self@.round.index,
                audience == parties@.audience,
                is_canonical(audience),
                recipients == spec_recipients(parties@),
                payloads == |q: int|
                    match fixed {
                        Some(bytes) => bytes@,
                        None => spec_payload(self@.round, q),
                    },
                target == spec_batch(self@, kind, payloads),
                audience.contains(me) ==> at == spec_position(audience, me) && 0 <= at < n,
                !audience.contains(me) ==> at == n,
                batch@.len() == (if q <= at {
                    q as int
                } else {
                    q - 1
                }),
                forall|k: int| 0 <= k < batch@.len() ==> (#[trigger] batch@[k])@ == target[k],
            decreases n - q,
        {
            let member = parties.audience().at(q);
            if member != me {
                let payload = match fixed {
                    Some(bytes) => copy_bytes(bytes),
                    None => self.round.payload(q),
                };
                let message = SignedMessage::seal(
                    self.session_id,
                    index,
                    me,
                    kind,
                    payload,
                    &self.key,
                );
                proof {
                    let k = batch@.len() as int;
                    assert(q as int != at);
                    assert(recipients[k] == audience[q as int]);
                    assert(spec_position(audience, recipients[k]) == q);
                }
                batch.push(Outgoing { recipient: member, message });
            } else {
                proof {
                    assert(audience.contains(me));
                    assert(at == q);
                }
            }
            q = q + 1;
        }
        batch
    }

    /// The bytes of this party's confirmation.
    fn confirmation_payload(&self) -> (payload: Vec<u8>)
        requires
            spec_payloads_complete(self@),
            spec_needs_consensus(self@),
        ensures
            payload@ == spec_encode_scalars(spec_confirmation_scalars(self@)),
    {
        self.recall();
        let n = self.round.parties().senders().len();
        let ghost target = spec_confirmation_scalars(self@);
        let mut scalars: Vec<u64> = Vec::new();
        let mut p: usize = 0;
        while p < n
            invariant
                p <= n,
                self.wf(),
                spec_payloads_complete(self@),
                spec_needs_consensus(self@),
                n == self@.round.parties.senders.len(),
                target == spec_confirmation_scalars(self@),
                scalars@ == target.take(2 * p),
            decreases n - p,
        {
            let report = self.own_report(p);
            scalars.push(report.digest);
            scalars.push(report.signature);
            proof {
                assert(target.take(2 * p + 2) =~= target.take(2 * p).push(target[2 * p]).push(
                    target[2 * p + 1],
                ));
            }
            p = p + 1;
        }
        proof {
            assert(target.take(2 * n) =~= target);
        }
        encode_scalars(&scalars)
    }

    /// Hands out what this party has to send now.
    ///
    /// The first call in a round yields the round's payloads, one envelope
    /// per recipient. In a broadcast round, the first call after the
    /// payloads of all expected senders have arrived yields this party's
    /// confirmations. Every other call yields nothing: a batch is handed
    /// out once.
    pub fn outgoing_messages(&mut self) -> (batch: Vec<Outgoing>)
        ensures
            final(self).wf(),
            final(self)@ == spec_outgoing(old(self)@).0,
            batch@.len() == spec_outgoing(old(self)@).1.len(),
            forall|k: int|
                0 <= k < batch@.len() ==> (#[trigger] batch@[k])@ == spec_outgoing(old(self)@).1[k],
    {
        proof {
            use_type_invariant(&*self);
        }
        if self.finished {
            return Vec::new();
        }
        if !self.payloads_sent {
            let batch = if self.round.parties().sends() {
                self.batch(self.round.category(), None)
            } else {
                Vec::new()
            };
            self.payloads_sent = true;
            return batch;
        }
        if self.round.parties().listens() && self.round.requires_consensus()
            && !self.confirmations_sent && self.payloads_complete() {
            let payload = self.confirmation_payload();
            let batch = self.batch(PayloadKind::Confirmation, Some(&payload));
            self.confirmations_sent = true;
            return batch;
        }
        Vec::new()
    }

    /// Exports the evidence the session holds about `party`: every envelope
    /// that opened and names `party` as its sender, in the order in which
    /// they were recorded. Each carries the party's signature, so the
    /// bundle can be verified by anyone.
    pub fn evidence(&self, party: u64) -> (bundle: Vec<SignedMessage>)
        ensures
            bundle@.len() == spec_from_party(self@.transcript, party).len(),
            forall|k: int|
                0 <= k < bundle@.len() ==> (#[trigger] bundle@[k])@ == spec_from_party(
                    self@.transcript,
                    party,
                )[k],
    {
        let ghost transcript = self@.transcript;
        let mut bundle: Vec<SignedMessage> = Vec::new();
        let mut i: usize = 0;
        while i < self.transcript.len()
            invariant
                i <= self.transcript@.len(),
                transcript == self@.transcript,
                transcript.len() == self.transcript@.len(),
                bundle@.len() == spec_from_party(transcript.take(i as int), party).len(),
                forall|k: int|
                    0 <= k < bundle@.len() ==> (#[trigger] bundle@[k])@ == spec_from_party(
                        transcript.take(i as int),
                        party,
                    )[k],
            decreases self.transcript.len() - i,
        {
            proof {
                assert(transcript.take(i + 1).drop_last() =~= transcript.take(i as int));
                assert(transcript.take(i + 1).last() == self.transcript@[i as int]@);
            }
            if self.transcript[i].sender == party {
                bundle.push(self.transcript[i].duplicate());
            }
            i = i + 1;
        }
        proof {
            assert(transcript.take(i as int) =~= transcript);
        }
        bundle
    }

    /// The number of envelopes recorded in the transcript.
    pub fn transcript_len(&self) -> (n: usize)
        ensures
            n == self@.transcript.len(),
    {
        self.transcript.len()
    }
}

} // verus!