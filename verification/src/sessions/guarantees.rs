//! What a session guarantees, whatever it is handed.

use vstd::prelude::*;
use crate::participants::{lemma_position_is_unique, spec_position};
use crate::protocols::round::{spec_category, spec_finalize, FinalizeOutcomeView};
use crate::sessions::broadcast::{
    lemma_consensus_iff_agreement,
    lemma_equivocation_is_convicted,
    spec_agree,
    spec_convicts,
    spec_report_is_signed,
    Report,
};
use crate::sessions::error::{Error, Fault, LocalError, ProvableError};
use crate::sessions::signed_message::{
    lemma_signature_is_bound_to_its_header,
    lemma_signature_verifies,
    lemma_tampered_payload_is_rejected,
    spec_authentic,
    spec_challenge,
    spec_open,
    spec_seal,
    AuthenticationFault,
    MessageView,
    PayloadKind,
};
use crate::sessions::signed_message::spec_sign;
use crate::tools::arithmetic::spec_point;
use crate::sessions::states::{
    spec_reports_about,
    spec_slots_wf,
    spec_add_message,
    spec_can_finalize,
    spec_consensus_at,
    spec_consensus_fault,
    spec_last_accepted,
    spec_needs_consensus,
    spec_own_report,
    spec_payload_slots,
    spec_place_payload,
    spec_reports,
    spec_session_finalize,
    spec_session_wf,
    ReceivedView,
    SessionView,
};
use crate::participants::is_canonical;
use crate::protocols::guarantees::{
    lemma_honest_auxiliary_generation,
    lemma_honest_key_generation,
    lemma_honest_redistribution,
    lemma_honest_signing,
    lemma_outcomes_are_well_formed,
    spec_announce_round,
    spec_commit_payloads,
    spec_everybody,
    spec_generation_round,
    spec_honest_generation_result,
    spec_honest_new_share,
    spec_honest_signature,
    spec_key_reveal_round,
    spec_partial_payloads,
    spec_peer_slots,
    spec_reveal_payloads,
    spec_signing_round_of,
};
use crate::protocols::parties::PartiesView;
use crate::protocols::redistribution::{spec_announce_payload, spec_share_payload};
use crate::protocols::results::{spec_signature_verifies, ProtocolResultView};
use crate::protocols::round::{ProtocolKind, RoundView};
use crate::sessions::states::spec_initial;
use crate::tools::arithmetic::{spec_points, spec_sum};
use crate::sessions::states::{
    spec_outgoing,
    spec_recipients,
    spec_claims,
    spec_claims_signed,
    spec_confirmations_complete,
    spec_payloads_complete,
    spec_place_confirmation,
};
use crate::tools::codec::{lemma_decode_encode, spec_decode_scalars, spec_encode_scalars};
use crate::tools::hashing::spec_digest;
use crate::tools::search::{lemma_first_index, spec_first_index};

verus! {

/// An authentic envelope of which one byte of the payload was changed is
/// never taken by a running session: handing it in is a provable
/// authentication fault attributed to the sender the envelope claims, and
/// the session stays exactly as it was.
pub proof fn lemma_tampered_envelope_is_turned_away(
    s: SessionView,
    m: MessageView,
    tampered: Seq<u8>,
    at: int,
)
    requires
        !s.finished,
        spec_authentic(m),
        tampered.len() == m.payload.len(),
        0 <= at < m.payload.len(),
        tampered[at] != m.payload[at],
        forall|j: int| 0 <= j < m.payload.len() && j != at ==> tampered[j] == m.payload[j],
    ensures
        spec_add_message(s, MessageView { payload: tampered, ..m }).0 == s,
        spec_add_message(s, MessageView { payload: tampered, ..m }).1 matches Err(
            Error::Provable(e),
        ) && e.party == m.sender && e.fault is Authentication,
{
    let forged = MessageView { payload: tampered, ..m };
    lemma_tampered_payload_is_rejected(
        m,
        tampered,
        at,
        s.session_id,
        s.round.index,
        spec_last_accepted(s, forged.kind),
    );
}

/// An envelope of another session is never taken by a running session,
/// whatever its content and signature: handing it in is a provable
/// authentication fault attributed to the sender the envelope claims, and
/// the session stays exactly as it was. Nothing signed in one run can be
/// replayed in a run with another session identifier.
pub proof fn lemma_foreign_envelope_is_turned_away(s: SessionView, m: MessageView)
    requires
        !s.finished,
        m.session_id != s.session_id,
    ensures
        spec_add_message(s, m) == (
            s,
            Err::<(), Error>(
                Error::Provable(
                    ProvableError {
                        party: m.sender,
                        fault: Fault::Authentication(AuthenticationFault::SessionMismatch),
                    },
                ),
            ),
        ),
{
}

/// An envelope signed in one run cannot be replayed in another by rewriting
/// the session it names: an authentic envelope whose session identifier is
/// replaced by that of a running session of another run is turned away as a
/// provable authentication fault of the sender it claims, and the session
/// stays exactly as it was.
pub proof fn lemma_rewritten_envelope_is_turned_away(s: SessionView, m: MessageView)
    requires
        !s.finished,
        spec_authentic(m),
        m.session_id != s.session_id,
    ensures
        spec_add_message(s, MessageView { session_id: s.session_id, ..m }).0 == s,
        spec_add_message(s, MessageView { session_id: s.session_id, ..m }).1 matches Err(
            Error::Provable(e),
        ) && e.party == m.sender && e.fault is Authentication,
{
    lemma_signature_is_bound_to_its_header(m, s.session_id, m.round, m.kind);
}

/// Finalizing a round that cannot be finalized is a local error and leaves
/// the session exactly as it was, so doing it again gives the same answer.
pub proof fn lemma_premature_finalize_changes_nothing(s: SessionView)
    requires
        !spec_can_finalize(s),
    ensures
        spec_session_finalize(s).0 == s,
        spec_session_finalize(s).1 == FinalizeOutcomeView::Error(
            Error::Local(
                if s.finished {
                    LocalError::SessionFinished
                } else {
                    LocalError::NotReady
                },
            ),
        ),
        spec_session_finalize(spec_session_finalize(s).0) == spec_session_finalize(s),
{
}

/// The report a complete broadcast round holds about the sender at position
/// `p` from the member of the audience at position `q` carries the
/// sender's signature.
pub proof fn lemma_reports_are_signed(s: SessionView, p: int, q: int)
    requires
        spec_session_wf(s),
        spec_can_finalize(s),
        spec_needs_consensus(s),
        0 <= p < s.round.parties.senders.len(),
        0 <= q < s.round.parties.audience.len(),
    ensures
        spec_report_is_signed(
            s.session_id,
            s.round.index,
            s.round.parties.senders[p],
            spec_reports(s, p)[q],
        ),
{
    let parties = s.round.parties;
    if parties.audience[q] == parties.me {
        if parties.senders[p] == parties.me {
            let d = spec_digest(crate::protocols::round::spec_payload(s.round, 0));
            lemma_signature_verifies(
                s.secret,
                spec_challenge(s.session_id, s.round.index, parties.me, PayloadKind::Broadcast, d),
            );
        } else {
            assert(s.received[p] is Some);
        }
    } else {
        assert(s.confirmations[q] is Some);
        let reports = s.confirmations[q]->0;
        assert(spec_report_is_signed(
            s.session_id,
            s.round.index,
            parties.senders[p],
            reports[p],
        ));
    }
}

/// The two reports an error of consensus names are among the reports the
/// session exports about the accused sender, and every exported report
/// carries the sender's signature.
pub proof fn lemma_evidence_is_among_the_reports(s: SessionView)
    requires
        spec_session_wf(s),
        spec_can_finalize(s),
        spec_needs_consensus(s),
        spec_consensus_fault(s) is Some,
    ensures
        ({
            let evidence = spec_consensus_fault(s)->0;
            let after = spec_session_finalize(s).0;
            &&& spec_reports_about(after, evidence.sender) is Some
            &&& spec_reports_about(after, evidence.sender)->0.contains(evidence.first)
            &&& spec_reports_about(after, evidence.sender)->0.contains(evidence.second)
            &&& forall|q: int|
                0 <= q < spec_reports_about(after, evidence.sender)->0.len()
                    ==> spec_report_is_signed(
                    s.session_id,
                    s.round.index,
                    evidence.sender,
                    #[trigger] spec_reports_about(after, evidence.sender)->0[q],
                )
        }),
{
    let parties = s.round.parties;
    let n = parties.senders.len() as int;
    let bad = |k: int| spec_consensus_at(s, k) is Err;
    lemma_first_index(bad, 0, n);
    let at = spec_first_index(bad, 0, n);
    let evidence = spec_consensus_fault(s)->0;
    let after = spec_session_finalize(s).0;
    assert(after == SessionView { finished: true, ..s });
    lemma_position_is_unique(parties.senders, at);
    let reports = spec_reports(s, at);
    assert(spec_reports(after, at) =~= reports);
    crate::sessions::broadcast::lemma_first_dissent(reports, 0);
    let dissent = crate::sessions::broadcast::spec_first_dissent(reports, 0);
    assert(evidence.first == reports[0]);
    assert(evidence.second == reports[dissent]);
    assert forall|q: int| 0 <= q < reports.len() implies spec_report_is_signed(
        s.session_id,
        s.round.index,
        evidence.sender,
        #[trigger] reports[q],
    ) by {
        lemma_reports_are_signed(s, at, q);
    }
}

/// A sender of whom some member of the audience reports another broadcast
/// than this party received never gets away with it. Once the round is
/// complete, finalizing ends the session with a provable consensus error.
/// The error names a sender of the run, and it convicts that sender for
/// anyone who replays it: it holds two reports with different digests, both
/// signed by the sender for this session and round. If no sender earlier in
/// canonical order has equivocated, the sender named is this one.
pub proof fn lemma_equivocation_ends_the_session(s: SessionView, p: int, q: int)
    requires
        spec_session_wf(s),
        spec_can_finalize(s),
        spec_needs_consensus(s),
        0 <= p < s.round.parties.senders.len(),
        0 <= q < s.round.parties.audience.len(),
        s.round.parties.audience[q] != s.round.parties.me,
        s.confirmations[q]->0[p].digest != spec_own_report(s, p).digest,
    ensures
        spec_session_finalize(s).0.finished,
        spec_session_finalize(s).1 matches FinalizeOutcomeView::Error(Error::Provable(e))
            && e.fault matches Fault::Consensus(evidence) && {
            &&& e.party == evidence.sender
            &&& s.round.parties.senders.contains(evidence.sender)
            &&& evidence.session_id == s.session_id
            &&& evidence.round == s.round.index
            &&& spec_convicts(evidence)
            &&& (forall|k: int| 0 <= k < p ==> spec_agree(#[trigger] spec_reports(s, k)))
                ==> evidence.sender == s.round.parties.senders[p]
        },
{
    let parties = s.round.parties;
    let n = parties.senders.len() as int;
    let bad = |k: int| spec_consensus_at(s, k) is Err;
    lemma_first_index(bad, 0, n);
    let at = spec_first_index(bad, 0, n);
    // The reports about `p` disagree, so some sender up to `p` fails.
    let mine = spec_position(parties.audience, parties.me);
    assert(parties.audience[mine] == parties.me);
    let about_p = spec_reports(s, p);
    assert(about_p[q] == s.confirmations[q]->0[p]);
    assert(about_p[mine] == spec_own_report(s, p));
    lemma_equivocation_is_convicted(
        s.session_id,
        s.round.index,
        parties.senders[p],
        about_p,
        q,
        mine,
    );
    assert(bad(p));
    assert(at <= p);
    // The reports about the first failing sender are all signed.
    let reports = spec_reports(s, at);
    lemma_consensus_iff_agreement(s.session_id, s.round.index, parties.senders[at], reports);
    let i = choose|i: int|
        0 <= i < reports.len() && (#[trigger] reports[i]).digest != reports[0].digest;
    assert forall|k: int| 0 <= k < reports.len() implies spec_report_is_signed(
        s.session_id,
        s.round.index,
        parties.senders[at],
        #[trigger] reports[k],
    ) by {
        lemma_reports_are_signed(s, at, k);
    }
    lemma_equivocation_is_convicted(
        s.session_id,
        s.round.index,
        parties.senders[at],
        reports,
        i,
        0,
    );
    assert(spec_consensus_fault(s) == Some(spec_consensus_at(s, at)->Err_0));
    if forall|k: int| 0 <= k < p ==> spec_agree(#[trigger] spec_reports(s, k)) {
        if at < p {
            assert(spec_agree(spec_reports(s, at)));
        }
    }
}

/// When the reports about every sender agree, consensus finds no fault.
pub proof fn lemma_agreeing_reports_pass(s: SessionView)
    requires
        forall|p: int|
            0 <= p < s.round.parties.senders.len() ==> spec_agree(#[trigger] spec_reports(s, p)),
    ensures
        spec_consensus_fault(s) is None,
{
    let n = s.round.parties.senders.len() as int;
    let bad = |k: int| spec_consensus_at(s, k) is Err;
    lemma_first_index(bad, 0, n);
    let at = spec_first_index(bad, 0, n);
    if at < n {
        assert(spec_agree(spec_reports(s, at)));
        lemma_consensus_iff_agreement(
            s.session_id,
            s.round.index,
            s.round.parties.senders[at],
            spec_reports(s, at),
        );
    }
}

/// A complete round whose broadcasts pass consensus is finalized on the
/// payloads received: the session's outcome is the round's.
pub proof fn lemma_complete_round_is_finalized(s: SessionView)
    requires
        spec_can_finalize(s),
        spec_needs_consensus(s) ==> forall|p: int|
            0 <= p < s.round.parties.senders.len() ==> spec_agree(#[trigger] spec_reports(s, p)),
    ensures
        spec_session_finalize(s).1 == spec_finalize(s.round, spec_payload_slots(s.received)),
{
    if spec_needs_consensus(s) {
        lemma_agreeing_reports_pass(s);
    }
}

/// A running session takes the payload an expected sender sealed for the
/// current round under its own identity, if it has none from that sender
/// yet: the payload is filed in the sender's slot with its signature, the
/// envelope is recorded, and nothing else changes.
pub proof fn lemma_honest_payload_is_filed(s: SessionView, sender_secret: u64, payload: Seq<u8>)
    requires
        spec_session_wf(s),
        !s.finished,
        s.round.parties.audience.contains(s.round.parties.me),
        s.round.parties.senders.contains(crate::tools::arithmetic::spec_point(sender_secret)),
        crate::tools::arithmetic::spec_point(sender_secret) != s.round.parties.me,
        s.received[spec_position(
            s.round.parties.senders,
            crate::tools::arithmetic::spec_point(sender_secret),
        )] is None,
    ensures
        ({
            let sender = crate::tools::arithmetic::spec_point(sender_secret);
            let m = spec_seal(
                s.session_id,
                s.round.index,
                sender,
                spec_category(s.round.kind, s.round.index),
                payload,
                sender_secret,
            );
            spec_add_message(s, m) == (
                SessionView {
                    received: s.received.update(
                        spec_position(s.round.parties.senders, sender),
                        Some(ReceivedView { payload, signature: m.signature }),
                    ),
                    transcript: s.transcript.push(m),
                    ..s
                },
                Ok::<(), Error>(()),
            )
        }),
{
    let sender = crate::tools::arithmetic::spec_point(sender_secret);
    let kind = spec_category(s.round.kind, s.round.index);
    let m = spec_seal(s.session_id, s.round.index, sender, kind, payload, sender_secret);
    crate::sessions::signed_message::lemma_sealed_envelope_opens(
        s.session_id,
        s.round.index,
        kind,
        payload,
        sender_secret,
        s.round.index,
        spec_last_accepted(s, kind),
    );
    assert(!(kind is Confirmation));
}

/// What a session holds after it was handed the given envelopes one after
/// the other.
pub open spec fn spec_deliver(s: SessionView, messages: Seq<MessageView>) -> SessionView
    decreases messages.len(),
{
    if messages.len() == 0 {
        s
    } else {
        spec_add_message(spec_deliver(s, messages.drop_last()), messages.last()).0
    }
}

/// Whether the session took every one of the given envelopes, handed to it
/// one after the other.
pub open spec fn spec_all_taken(s: SessionView, messages: Seq<MessageView>) -> bool
    decreases messages.len(),
{
    messages.len() == 0 || (spec_all_taken(s, messages.drop_last()) && spec_add_message(
        spec_deliver(s, messages.drop_last()),
        messages.last(),
    ).1 is Ok)
}

/// A round in which every sender follows the protocol, seen from a session
/// at the start of the round: `keys` are the secrets behind the identities
/// of the senders and `payloads` what each sender sends to this party, by
/// position of the sender. In a broadcast round this party's own entry is
/// the payload it broadcasts itself.
pub open spec fn spec_honest_round(s: SessionView, keys: Seq<u64>, payloads: Seq<Seq<u8>>) -> bool {
    let parties = s.round.parties;
    &&& spec_session_wf(s)
    &&& !s.finished
    &&& parties.audience.contains(parties.me)
    &&& keys.len() == parties.senders.len()
    &&& payloads.len() == parties.senders.len()
    &&& forall|p: int| 0 <= p < keys.len() ==> parties.senders[p] == spec_point(#[trigger] keys[p])
    &&& spec_needs_consensus(s) ==> forall|p: int|
        0 <= p < payloads.len() && parties.senders[p] == parties.me ==> #[trigger] payloads[p]
            == crate::protocols::round::spec_payload(s.round, 0)
    &&& forall|p: int| 0 <= p < s.received.len() ==> (#[trigger] s.received[p]) is None
    &&& forall|q: int| 0 <= q < s.confirmations.len() ==> (#[trigger] s.confirmations[q]) is None
}

/// The envelope in which the sender at position `p` sends its payload.
pub open spec fn spec_honest_envelope(
    s: SessionView,
    keys: Seq<u64>,
    payloads: Seq<Seq<u8>>,
    p: int,
) -> MessageView {
    spec_seal(
        s.session_id,
        s.round.index,
        s.round.parties.senders[p],
        spec_category(s.round.kind, s.round.index),
        payloads[p],
        keys[p],
    )
}

/// The envelopes of the senders at the given positions, in the given
/// order.
pub open spec fn spec_honest_envelopes(
    s: SessionView,
    keys: Seq<u64>,
    payloads: Seq<Seq<u8>>,
    order: Seq<int>,
) -> Seq<MessageView> {
    Seq::new(order.len(), |k: int| spec_honest_envelope(s, keys, payloads, order[k]))
}

/// Whether `order` lists positions of parties other than `me` in `set`,
/// each at most once.
pub open spec fn spec_order(set: Seq<u64>, me: u64, order: Seq<int>) -> bool {
    &&& forall|k: int| 0 <= k < order.len() ==> 0 <= #[trigger] order[k] < set.len() && set[order[k]] != me
    &&& forall|k: int, l: int| 0 <= k < l < order.len() ==> order[k] != order[l]
}

/// Whether `order` lists every position of a party other than `me` in
/// `set`.
pub open spec fn spec_covers(set: Seq<u64>, me: u64, order: Seq<int>) -> bool {
    forall|p: int| 0 <= p < set.len() && set[p] != me ==> order.contains(p)
}

/// The slots of a session that has filed the honest payloads of the senders
/// listed in `order`.
pub open spec fn spec_filed(
    s: SessionView,
    keys: Seq<u64>,
    payloads: Seq<Seq<u8>>,
    order: Seq<int>,
) -> Seq<Option<ReceivedView>> {
    Seq::new(
        s.round.parties.senders.len(),
        |p: int|
            if order.contains(p) {
                Some(
                    ReceivedView {
                        payload: payloads[p],
                        signature: spec_honest_envelope(s, keys, payloads, p).signature,
                    },
                )
            } else {
                None
            },
    )
}

/// The session after it has filed the honest payloads of the senders listed
/// in `order`: each is in its sender's slot, the envelopes are recorded,
/// and nothing else has changed.
pub open spec fn spec_after_payloads(
    s: SessionView,
    keys: Seq<u64>,
    payloads: Seq<Seq<u8>>,
    order: Seq<int>,
) -> SessionView {
    SessionView {
        received: spec_filed(s, keys, payloads, order),
        transcript: s.transcript + spec_honest_envelopes(s, keys, payloads, order),
        ..s
    }
}

/// A shorter order is an order.
proof fn lemma_shorter_order(set: Seq<u64>, me: u64, order: Seq<int>)
    requires
        spec_order(set, me, order),
        order.len() > 0,
    ensures
        spec_order(set, me, order.drop_last()),
        !order.drop_last().contains(order.last()),
        0 <= order.last() < set.len(),
        set[order.last()] != me,
        forall|p: int| order.contains(p) <==> (order.drop_last().contains(p) || p == order.last()),
{
    let shorter = order.drop_last();
    let last = order.last();
    assert forall|k: int| 0 <= k < shorter.len() implies 0 <= #[trigger] shorter[k] < set.len()
        && set[shorter[k]] != me by {
        assert(shorter[k] == order[k]);
    }
    assert forall|k: int, l: int| 0 <= k < l < shorter.len() implies shorter[k] != shorter[l] by {
        assert(shorter[k] == order[k] && shorter[l] == order[l]);
    }
    if shorter.contains(last) {
        let k = choose|k: int| 0 <= k < shorter.len() && shorter[k] == last;
        assert(order[k] == order[order.len() - 1]);
    }
    assert(0 <= order[order.len() - 1] < set.len());
    assert forall|p: int| order.contains(p) <==> (shorter.contains(p) || p == last) by {
        if order.contains(p) {
            let k = choose|k: int| 0 <= k < order.len() && order[k] == p;
            if k < order.len() - 1 {
                assert(shorter[k] == p);
            }
        }
        if shorter.contains(p) {
            let k = choose|k: int| 0 <= k < shorter.len() && shorter[k] == p;
            assert(order[k] == p);
        }
        if p == last {
            assert(order[order.len() - 1] == p);
        }
    }
}

/// One more honest payload: the session that has filed the payloads of all
/// but the last sender of `order` takes the envelope of the last.
proof fn lemma_filing_step(s: SessionView, keys: Seq<u64>, payloads: Seq<Seq<u8>>, order: Seq<int>)
    requires
        spec_honest_round(s, keys, payloads),
        spec_order(s.round.parties.senders, s.round.parties.me, order),
        order.len() > 0,
    ensures
        spec_add_message(
            spec_after_payloads(s, keys, payloads, order.drop_last()),
            spec_honest_envelope(s, keys, payloads, order.last()),
        ) == (spec_after_payloads(s, keys, payloads, order), Ok::<(), Error>(())),
{
    let parties = s.round.parties;
    let shorter = order.drop_last();
    let last = order.last();
    lemma_shorter_order(parties.senders, parties.me, order);
    lemma_filed_session_is_well_formed(s, keys, payloads, shorter);
    let s1 = spec_after_payloads(s, keys, payloads, shorter);
    lemma_position_is_unique(parties.senders, last);
    assert(parties.senders[last] == spec_point(keys[last]));
    assert(s1.received[last] is None);
    lemma_honest_payload_is_filed(s1, keys[last], payloads[last]);
    let m = spec_honest_envelope(s, keys, payloads, last);
    let s2 = SessionView {
        received: s1.received.update(
            last,
            Some(ReceivedView { payload: payloads[last], signature: m.signature }),
        ),
        transcript: s1.transcript.push(m),
        ..s1
    };
    let target = spec_after_payloads(s, keys, payloads, order);
    assert(s2.received =~= target.received);
    assert(s2.transcript =~= target.transcript) by {
        let all = spec_honest_envelopes(s, keys, payloads, order);
        let before = spec_honest_envelopes(s, keys, payloads, shorter);
        assert(all =~= before.push(m));
    }
}

/// A session takes the payloads of honest senders in whatever order they
/// arrive: after the envelopes of the senders listed in `order`, each is
/// filed in its sender's slot and recorded, and nothing else has changed.
pub proof fn lemma_honest_payloads_are_filed(
    s: SessionView,
    keys: Seq<u64>,
    payloads: Seq<Seq<u8>>,
    order: Seq<int>,
)
    requires
        spec_honest_round(s, keys, payloads),
        spec_order(s.round.parties.senders, s.round.parties.me, order),
    ensures
        spec_all_taken(s, spec_honest_envelopes(s, keys, payloads, order)),
        spec_deliver(s, spec_honest_envelopes(s, keys, payloads, order)) == spec_after_payloads(
            s,
            keys,
            payloads,
            order,
        ),
    decreases order.len(),
{
    let messages = spec_honest_envelopes(s, keys, payloads, order);
    if order.len() == 0 {
        assert(spec_filed(s, keys, payloads, order) =~= s.received);
        assert(s.transcript + messages =~= s.transcript);
    } else {
        let shorter = order.drop_last();
        lemma_shorter_order(s.round.parties.senders, s.round.parties.me, order);
        assert(messages.drop_last() =~= spec_honest_envelopes(s, keys, payloads, shorter));
        assert(messages.last() == spec_honest_envelope(s, keys, payloads, order.last()));
        lemma_honest_payloads_are_filed(s, keys, payloads, shorter);
        lemma_filing_step(s, keys, payloads, order);
    }
}

/// A session that has filed honest payloads is well formed.
pub proof fn lemma_filed_session_is_well_formed(
    s: SessionView,
    keys: Seq<u64>,
    payloads: Seq<Seq<u8>>,
    order: Seq<int>,
)
    requires
        spec_honest_round(s, keys, payloads),
        spec_order(s.round.parties.senders, s.round.parties.me, order),
    ensures
        spec_session_wf(
            SessionView {
                received: spec_filed(s, keys, payloads, order),
                transcript: s.transcript + spec_honest_envelopes(s, keys, payloads, order),
                ..s
            },
        ),
{
    let parties = s.round.parties;
    let filed = spec_filed(s, keys, payloads, order);
    let target = SessionView {
        received: filed,
        transcript: s.transcript + spec_honest_envelopes(s, keys, payloads, order),
        ..s
    };
    assert forall|p: int| 0 <= p < filed.len() implies ((#[trigger] filed[p]) matches Some(r) ==> {
        &&& parties.senders[p] != parties.me
        &&& crate::sessions::signed_message::spec_verifies(
            parties.senders[p],
            spec_challenge(
                s.session_id,
                s.round.index,
                parties.senders[p],
                spec_category(s.round.kind, s.round.index),
                spec_digest(r.payload),
            ),
            r.signature,
        )
    }) by {
        if order.contains(p) {
            let k = choose|k: int| 0 <= k < order.len() && order[k] == p;
            assert(parties.senders[order[k]] != parties.me);
            assert(parties.senders[p] == spec_point(keys[p]));
            lemma_signature_verifies(
                keys[p],
                spec_challenge(
                    s.session_id,
                    s.round.index,
                    parties.senders[p],
                    spec_category(s.round.kind, s.round.index),
                    spec_digest(payloads[p]),
                ),
            );
        }
    }
    assert(spec_slots_wf(target, target.received, target.round.index));
    assert(spec_slots_wf(target, target.pending, (target.round.index + 1) as u32)) by {
        assert(spec_slots_wf(s, s.pending, (s.round.index + 1) as u32));
    }
}

/// What an honest member of the audience reports about the sender at
/// position `p`: the digest of the sender's payload and the sender's
/// signature on it.
pub open spec fn spec_honest_report(
    s: SessionView,
    keys: Seq<u64>,
    payloads: Seq<Seq<u8>>,
    reporter: u64,
    p: int,
) -> Report {
    let d = spec_digest(payloads[p]);
    Report {
        reporter,
        digest: d,
        signature: spec_sign(
            keys[p],
            spec_challenge(
                s.session_id,
                s.round.index,
                s.round.parties.senders[p],
                PayloadKind::Broadcast,
                d,
            ),
        ),
    }
}

/// The reports of an honest member of the audience about all senders.
pub open spec fn spec_honest_claims(
    s: SessionView,
    keys: Seq<u64>,
    payloads: Seq<Seq<u8>>,
    reporter: u64,
) -> Seq<Report> {
    Seq::new(
        s.round.parties.senders.len(),
        |p: int| spec_honest_report(s, keys, payloads, reporter, p),
    )
}

/// The scalars of an honest confirmation: digest and signature for every
/// sender, by position.
pub open spec fn spec_honest_scalars(s: SessionView, keys: Seq<u64>, payloads: Seq<Seq<u8>>) -> Seq<
    u64,
> {
    Seq::new(
        2 * s.round.parties.senders.len(),
        |i: int|
            if i % 2 == 0 {
                spec_honest_report(s, keys, payloads, 0, i / 2).digest
            } else {
                spec_honest_report(s, keys, payloads, 0, i / 2).signature
            },
    )
}

/// The envelope in which the member of the audience at position `q` sends
/// its confirmation.
pub open spec fn spec_honest_confirmation(
    s: SessionView,
    keys: Seq<u64>,
    payloads: Seq<Seq<u8>>,
    audience_keys: Seq<u64>,
    q: int,
) -> MessageView {
    spec_seal(
        s.session_id,
        s.round.index,
        s.round.parties.audience[q],
        PayloadKind::Confirmation,
        spec_encode_scalars(spec_honest_scalars(s, keys, payloads)),
        audience_keys[q],
    )
}

/// The confirmations of the members of the audience at the given positions,
/// in the given order.
pub open spec fn spec_honest_confirmations(
    s: SessionView,
    keys: Seq<u64>,
    payloads: Seq<Seq<u8>>,
    audience_keys: Seq<u64>,
    order: Seq<int>,
) -> Seq<MessageView> {
    Seq::new(
        order.len(),
        |k: int| spec_honest_confirmation(s, keys, payloads, audience_keys, order[k]),
    )
}

/// The confirmation slots of a session that has filed the honest
/// confirmations of the members listed in `order`.
pub open spec fn spec_confirmed(
    s: SessionView,
    keys: Seq<u64>,
    payloads: Seq<Seq<u8>>,
    order: Seq<int>,
) -> Seq<Option<Seq<Report>>> {
    Seq::new(
        s.round.parties.audience.len(),
        |q: int|
            if order.contains(q) {
                Some(spec_honest_claims(s, keys, payloads, s.round.parties.audience[q]))
            } else {
                None
            },
    )
}

/// The session `t` after it has filed the honest confirmations of the
/// members listed in `order`.
pub open spec fn spec_after_confirmations(
    t: SessionView,
    keys: Seq<u64>,
    payloads: Seq<Seq<u8>>,
    audience_keys: Seq<u64>,
    order: Seq<int>,
) -> SessionView {
    SessionView {
        confirmations: spec_confirmed(t, keys, payloads, order),
        transcript: t.transcript + spec_honest_confirmations(
            t,
            keys,
            payloads,
            audience_keys,
            order,
        ),
        ..t
    }
}

/// A session in a broadcast round whose senders and audience are honest:
/// `keys` and `audience_keys` are the secrets behind their identities, and
/// no confirmation has been filed yet.
pub open spec fn spec_honest_audience(
    t: SessionView,
    keys: Seq<u64>,
    payloads: Seq<Seq<u8>>,
    audience_keys: Seq<u64>,
) -> bool {
    let parties = t.round.parties;
    &&& spec_session_wf(t)
    &&& !t.finished
    &&& spec_needs_consensus(t)
    &&& keys.len() == parties.senders.len()
    &&& payloads.len() == parties.senders.len()
    &&& audience_keys.len() == parties.audience.len()
    &&& forall|p: int| 0 <= p < keys.len() ==> parties.senders[p] == spec_point(#[trigger] keys[p])
    &&& forall|q: int|
        0 <= q < audience_keys.len() ==> parties.audience[q] == spec_point(
            #[trigger] audience_keys[q],
        )
    &&& forall|q: int| 0 <= q < t.confirmations.len() ==> (#[trigger] t.confirmations[q]) is None
}

/// The reports read from an honest confirmation are the honest reports.
proof fn lemma_honest_claims_are_read(
    t: SessionView,
    keys: Seq<u64>,
    payloads: Seq<Seq<u8>>,
    audience_keys: Seq<u64>,
    q: int,
)
    requires
        spec_honest_audience(t, keys, payloads, audience_keys),
        0 <= q < t.round.parties.audience.len(),
    ensures
        spec_claims(t, spec_honest_confirmation(t, keys, payloads, audience_keys, q)) == Some(
            spec_honest_claims(t, keys, payloads, t.round.parties.audience[q]),
        ),
{
    let n = t.round.parties.senders.len();
    let m = spec_honest_confirmation(t, keys, payloads, audience_keys, q);
    let scalars = spec_honest_scalars(t, keys, payloads);
    let claims = spec_honest_claims(t, keys, payloads, t.round.parties.audience[q]);
    assert(spec_decode_scalars(m.payload) == Some(scalars)) by {
        lemma_decode_encode(scalars);
    }
    assert(scalars.len() == 2 * n);
    let read = Seq::new(
        n,
        |p: int|
            Report {
                reporter: m.sender,
                digest: scalars[2 * p],
                signature: scalars[2 * p + 1],
            },
    );
    assert(spec_claims(t, m) == Some(read));
    assert forall|p: int| 0 <= p < n implies #[trigger] read[p] == claims[p] by {
        lemma_even_and_odd(p);
    }
    assert(read =~= claims);
}

/// Halving twice a number, and twice a number plus one.
proof fn lemma_even_and_odd(p: int)
    requires
        0 <= p,
    ensures
        (2 * p) % 2 == 0,
        (2 * p) / 2 == p,
        (2 * p + 1) % 2 == 1,
        (2 * p + 1) / 2 == p,
{
}

/// Honest reports carry the signatures of the senders they are about.
proof fn lemma_honest_claims_are_signed(
    t: SessionView,
    keys: Seq<u64>,
    payloads: Seq<Seq<u8>>,
    audience_keys: Seq<u64>,
    reporter: u64,
)
    requires
        spec_honest_audience(t, keys, payloads, audience_keys),
    ensures
        spec_claims_signed(t, spec_honest_claims(t, keys, payloads, reporter)),
{
    let parties = t.round.parties;
    let claims = spec_honest_claims(t, keys, payloads, reporter);
    assert forall|p: int| 0 <= p < claims.len() implies spec_report_is_signed(
        t.session_id,
        t.round.index,
        parties.senders[p],
        #[trigger] claims[p],
    ) by {
        assert(parties.senders[p] == spec_point(keys[p]));
        lemma_signature_verifies(
            keys[p],
            spec_challenge(
                t.session_id,
                t.round.index,
                parties.senders[p],
                PayloadKind::Broadcast,
                spec_digest(payloads[p]),
            ),
        );
    }
}

/// A session that has filed honest confirmations is well formed.
pub proof fn lemma_confirmed_session_is_well_formed(
    t: SessionView,
    keys: Seq<u64>,
    payloads: Seq<Seq<u8>>,
    audience_keys: Seq<u64>,
    order: Seq<int>,
)
    requires
        spec_honest_audience(t, keys, payloads, audience_keys),
        spec_order(t.round.parties.audience, t.round.parties.me, order),
    ensures
        spec_session_wf(spec_after_confirmations(t, keys, payloads, audience_keys, order)),
{
    let parties = t.round.parties;
    let target = spec_after_confirmations(t, keys, payloads, audience_keys, order);
    assert(spec_slots_wf(target, target.received, target.round.index)) by {
        assert(spec_slots_wf(t, t.received, t.round.index));
    }
    assert(spec_slots_wf(target, target.pending, (target.round.index + 1) as u32)) by {
        assert(spec_slots_wf(t, t.pending, (t.round.index + 1) as u32));
    }
    assert forall|q: int| 0 <= q < target.confirmations.len() implies ((
    #[trigger] target.confirmations[q]) matches Some(reports) ==> {
        &&& parties.audience[q] != parties.me
        &&& reports.len() == parties.senders.len()
        &&& forall|p: int|
            0 <= p < reports.len() ==> (#[trigger] reports[p]).reporter == parties.audience[q]
                && spec_report_is_signed(
                t.session_id,
                t.round.index,
                parties.senders[p],
                reports[p],
            )
    }) by {
        if order.contains(q) {
            let k = choose|k: int| 0 <= k < order.len() && order[k] == q;
            assert(parties.audience[order[k]] != parties.me);
            lemma_honest_claims_are_signed(t, keys, payloads, audience_keys, parties.audience[q]);
            let claims = spec_honest_claims(t, keys, payloads, parties.audience[q]);
            assert forall|p: int| 0 <= p < claims.len() implies (#[trigger] claims[p]).reporter
                == parties.audience[q] && spec_report_is_signed(
                t.session_id,
                t.round.index,
                parties.senders[p],
                claims[p],
            ) by {}
        }
    }
}

/// One more honest confirmation: the session that has filed the
/// confirmations of all but the last member of `order` takes the
/// confirmation of the last.
proof fn lemma_confirming_step(
    t: SessionView,
    keys: Seq<u64>,
    payloads: Seq<Seq<u8>>,
    audience_keys: Seq<u64>,
    order: Seq<int>,
)
    requires
        spec_honest_audience(t, keys, payloads, audience_keys),
        spec_order(t.round.parties.audience, t.round.parties.me, order),
        order.len() > 0,
    ensures
        spec_add_message(
            spec_after_confirmations(t, keys, payloads, audience_keys, order.drop_last()),
            spec_honest_confirmation(t, keys, payloads, audience_keys, order.last()),
        ) == (
            spec_after_confirmations(t, keys, payloads, audience_keys, order),
            Ok::<(), Error>(()),
        ),
{
    let parties = t.round.parties;
    let shorter = order.drop_last();
    let last = order.last();
    lemma_shorter_order(parties.audience, parties.me, order);
    lemma_confirmed_session_is_well_formed(t, keys, payloads, audience_keys, shorter);
    let t1 = spec_after_confirmations(t, keys, payloads, audience_keys, shorter);
    let m = spec_honest_confirmation(t, keys, payloads, audience_keys, last);
    let claims = spec_honest_claims(t, keys, payloads, parties.audience[last]);
    lemma_position_is_unique(parties.audience, last);
    assert(parties.audience[last] == spec_point(audience_keys[last]));
    crate::sessions::signed_message::lemma_sealed_envelope_opens(
        t.session_id,
        t.round.index,
        PayloadKind::Confirmation,
        spec_encode_scalars(spec_honest_scalars(t, keys, payloads)),
        audience_keys[last],
        t.round.index,
        t.round.index,
    );
    lemma_honest_claims_are_read(t, keys, payloads, audience_keys, last);
    lemma_honest_claims_are_signed(t, keys, payloads, audience_keys, parties.audience[last]);
    assert(spec_claims(t1, m) == spec_claims(t, m));
    assert(spec_claims_signed(t1, claims) == spec_claims_signed(t, claims));
    assert(t1.confirmations[last] is None);
    assert(spec_place_confirmation(t1, m) == Ok::<int, Error>(last));
    let t2 = spec_add_message(t1, m).0;
    let target = spec_after_confirmations(t, keys, payloads, audience_keys, order);
    assert(t2.confirmations =~= target.confirmations);
    assert(t2.transcript =~= target.transcript) by {
        let all = spec_honest_confirmations(t, keys, payloads, audience_keys, order);
        let before = spec_honest_confirmations(t, keys, payloads, audience_keys, shorter);
        assert(all =~= before.push(m));
    }
}

/// A session takes the confirmations of honest members of the audience in
/// whatever order they arrive: after the confirmations of the members
/// listed in `order`, each is filed under its reporter and recorded, and
/// nothing else has changed.
pub proof fn lemma_honest_confirmations_are_filed(
    t: SessionView,
    keys: Seq<u64>,
    payloads: Seq<Seq<u8>>,
    audience_keys: Seq<u64>,
    order: Seq<int>,
)
    requires
        spec_honest_audience(t, keys, payloads, audience_keys),
        spec_order(t.round.parties.audience, t.round.parties.me, order),
    ensures
        spec_all_taken(t, spec_honest_confirmations(t, keys, payloads, audience_keys, order)),
        spec_deliver(t, spec_honest_confirmations(t, keys, payloads, audience_keys, order))
            == spec_after_confirmations(t, keys, payloads, audience_keys, order),
    decreases order.len(),
{
    let messages = spec_honest_confirmations(t, keys, payloads, audience_keys, order);
    if order.len() == 0 {
        assert(spec_confirmed(t, keys, payloads, order) =~= t.confirmations);
        assert(t.transcript + messages =~= t.transcript);
    } else {
        let shorter = order.drop_last();
        lemma_shorter_order(t.round.parties.audience, t.round.parties.me, order);
        assert(messages.drop_last() =~= spec_honest_confirmations(
            t,
            keys,
            payloads,
            audience_keys,
            shorter,
        ));
        assert(messages.last() == spec_honest_confirmation(
            t,
            keys,
            payloads,
            audience_keys,
            order.last(),
        ));
        lemma_honest_confirmations_are_filed(t, keys, payloads, audience_keys, shorter);
        lemma_confirming_step(t, keys, payloads, audience_keys, order);
    }
}

/// After the payloads of all other senders are filed, the round has all
/// its payloads, and they are the payloads of the others.
proof fn lemma_all_payloads_filed(
    s: SessionView,
    keys: Seq<u64>,
    payloads: Seq<Seq<u8>>,
    order: Seq<int>,
)
    requires
        spec_honest_round(s, keys, payloads),
        spec_order(s.round.parties.senders, s.round.parties.me, order),
        spec_covers(s.round.parties.senders, s.round.parties.me, order),
    ensures
        spec_payloads_complete(spec_after_payloads(s, keys, payloads, order)),
        spec_payload_slots(spec_after_payloads(s, keys, payloads, order).received)
            == spec_peer_slots(s.round.parties, payloads),
        forall|p: int|
            0 <= p < s.round.parties.senders.len() && s.round.parties.senders[p]
                != s.round.parties.me ==> (#[trigger] spec_after_payloads(
                s,
                keys,
                payloads,
                order,
            ).received[p]) == Some(
                ReceivedView {
                    payload: payloads[p],
                    signature: spec_honest_envelope(s, keys, payloads, p).signature,
                },
            ),
{
    let parties = s.round.parties;
    let s1 = spec_after_payloads(s, keys, payloads, order);
    assert forall|p: int|
        0 <= p < parties.senders.len() && parties.senders[p] != parties.me implies (
    #[trigger] s1.received[p]) == Some(
        ReceivedView {
            payload: payloads[p],
            signature: spec_honest_envelope(s, keys, payloads, p).signature,
        },
    ) by {
        assert(order.contains(p));
    }
    assert forall|p: int| 0 <= p < parties.senders.len() implies spec_payload_slots(
        s1.received,
    )[p] == spec_peer_slots(parties, payloads)[p] by {
        if parties.senders[p] != parties.me {
            assert(order.contains(p));
        } else if order.contains(p) {
            let k = choose|k: int| 0 <= k < order.len() && order[k] == p;
            assert(parties.senders[order[k]] != parties.me);
        }
    }
    assert(spec_payload_slots(s1.received) =~= spec_peer_slots(parties, payloads));
}

/// After the confirmations of all other members of the audience are filed,
/// the round has all its confirmations, and the reports about every sender
/// agree.
proof fn lemma_all_confirmations_filed(
    t: SessionView,
    keys: Seq<u64>,
    payloads: Seq<Seq<u8>>,
    audience_keys: Seq<u64>,
    reporters: Seq<int>,
)
    requires
        spec_honest_audience(t, keys, payloads, audience_keys),
        spec_order(t.round.parties.audience, t.round.parties.me, reporters),
        spec_covers(t.round.parties.audience, t.round.parties.me, reporters),
        spec_payloads_complete(t),
        forall|p: int|
            0 <= p < t.round.parties.senders.len() && t.round.parties.senders[p]
                != t.round.parties.me ==> (#[trigger] t.received[p])->0.payload == payloads[p],
        forall|p: int|
            0 <= p < payloads.len() && t.round.parties.senders[p] == t.round.parties.me
                ==> #[trigger] payloads[p] == crate::protocols::round::spec_payload(t.round, 0),
    ensures
        spec_can_finalize(spec_after_confirmations(t, keys, payloads, audience_keys, reporters)),
        forall|p: int|
            0 <= p < t.round.parties.senders.len() ==> spec_agree(
                #[trigger] spec_reports(
                    spec_after_confirmations(t, keys, payloads, audience_keys, reporters),
                    p,
                ),
            ),
{
    let parties = t.round.parties;
    let t2 = spec_after_confirmations(t, keys, payloads, audience_keys, reporters);
    assert(spec_confirmations_complete(t2)) by {
        assert forall|q: int|
            0 <= q < parties.audience.len() && parties.audience[q]
                != parties.me implies (#[trigger] t2.confirmations[q]) is Some by {
            assert(reporters.contains(q));
        }
    }
    assert(spec_payloads_complete(t2));
    assert forall|p: int| 0 <= p < parties.senders.len() implies spec_agree(
        #[trigger] spec_reports(t2, p),
    ) by {
        let reports = spec_reports(t2, p);
        assert forall|q: int| 0 <= q < reports.len() implies (#[trigger] reports[q]).digest
            == spec_digest(payloads[p]) by {
            if parties.audience[q] == parties.me {
                if parties.senders[p] != parties.me {
                    assert(t.received[p]->0.payload == payloads[p]);
                }
            } else {
                assert(reporters.contains(q));
                assert(t2.confirmations[q]->0 == spec_honest_claims(
                    t,
                    keys,
                    payloads,
                    parties.audience[q],
                ));
            }
        }
        if reports.len() > 0 {
            assert(reports[0].digest == spec_digest(payloads[p]));
        }
    }
}

/// A round in which everybody follows the protocol completes. A session at
/// the start of a round that is handed the payloads of all other senders,
/// in any order, and then, in a broadcast round, the confirmations of all
/// other members of the audience, in any order, takes every one of them,
/// can be finalized, and its outcome is what the round yields on the
/// payloads of the others.
pub proof fn lemma_honest_round_completes(
    s: SessionView,
    keys: Seq<u64>,
    payloads: Seq<Seq<u8>>,
    audience_keys: Seq<u64>,
    order: Seq<int>,
    reporters: Seq<int>,
)
    requires
        spec_honest_round(s, keys, payloads),
        spec_order(s.round.parties.senders, s.round.parties.me, order),
        spec_covers(s.round.parties.senders, s.round.parties.me, order),
        audience_keys.len() == s.round.parties.audience.len(),
        forall|q: int|
            0 <= q < audience_keys.len() ==> s.round.parties.audience[q] == spec_point(
                #[trigger] audience_keys[q],
            ),
        spec_order(s.round.parties.audience, s.round.parties.me, reporters),
        spec_covers(s.round.parties.audience, s.round.parties.me, reporters),
    ensures
        ({
            let s1 = spec_deliver(s, spec_honest_envelopes(s, keys, payloads, order));
            let confirmations = spec_honest_confirmations(
                s1,
                keys,
                payloads,
                audience_keys,
                reporters,
            );
            let s2 = if spec_needs_consensus(s) {
                spec_deliver(s1, confirmations)
            } else {
                s1
            };
            &&& spec_all_taken(s, spec_honest_envelopes(s, keys, payloads, order))
            &&& spec_needs_consensus(s) ==> spec_all_taken(s1, confirmations)
            &&& spec_can_finalize(s2)
            &&& spec_session_finalize(s2).1 == spec_finalize(
                s.round,
                spec_peer_slots(s.round.parties, payloads),
            )
        }),
{
    lemma_honest_payloads_are_filed(s, keys, payloads, order);
    lemma_filed_session_is_well_formed(s, keys, payloads, order);
    lemma_all_payloads_filed(s, keys, payloads, order);
    let s1 = spec_after_payloads(s, keys, payloads, order);
    if spec_needs_consensus(s) {
        assert(spec_honest_audience(s1, keys, payloads, audience_keys));
        lemma_honest_confirmations_are_filed(s1, keys, payloads, audience_keys, reporters);
        lemma_all_confirmations_filed(s1, keys, payloads, audience_keys, reporters);
        let s2 = spec_after_confirmations(s1, keys, payloads, audience_keys, reporters);
        lemma_complete_round_is_finalized(s2);
    } else {
        lemma_complete_round_is_finalized(s1);
    }
}

/// What a session sends is what the others expect: every envelope of a
/// batch is sealed with the session's own key under its own identity for
/// the session and the round it is in, so it opens in every session of the
/// same run that accepts this round.
pub proof fn lemma_outgoing_envelopes_open(s: SessionView, k: int, first_round: u32, last_round: u32)
    requires
        spec_session_wf(s),
        0 <= k < spec_outgoing(s).1.len(),
        first_round <= s.round.index <= last_round,
    ensures
        spec_outgoing(s).1[k].message.sender == s.round.parties.me,
        spec_outgoing(s).1[k].recipient != s.round.parties.me,
        s.round.parties.audience.contains(spec_outgoing(s).1[k].recipient),
        spec_open(spec_outgoing(s).1[k].message, s.session_id, first_round, last_round)
            == Ok::<Seq<u8>, crate::sessions::signed_message::AuthenticationError>(
            spec_outgoing(s).1[k].message.payload,
        ),
{
    let parties = s.round.parties;
    let out = spec_outgoing(s).1[k];
    let m = out.message;
    let recipients = spec_recipients(parties);
    assert(out.recipient == recipients[k]);
    if parties.audience.contains(parties.me) {
        let at = spec_position(parties.audience, parties.me);
        let q = if k < at {
            k
        } else {
            k + 1
        };
        assert(recipients[k] == parties.audience[q]);
        if parties.audience[q] == parties.me {
            lemma_position_is_unique(parties.audience, q);
        }
    } else {
        assert(recipients[k] == parties.audience[k]);
    }
    crate::sessions::signed_message::lemma_sealed_envelope_opens(
        s.session_id,
        s.round.index,
        m.kind,
        m.payload,
        s.secret,
        first_round,
        last_round,
    );
}

/// A party outside the audience waits for nobody: its round can be
/// finalized at once, and the outcome is the round's.
pub proof fn lemma_party_outside_the_audience_waits_for_nobody(s: SessionView)
    requires
        !s.finished,
        !s.round.parties.audience.contains(s.round.parties.me),
    ensures
        spec_can_finalize(s),
        spec_session_finalize(s).1 == spec_finalize(s.round, spec_payload_slots(s.received)),
{
}

/// Whatever a well-formed session is handed, it stays well formed. In
/// particular, a payload is only ever filed with a signature of its sender
/// that verifies for it: nothing forged reaches a round.
pub proof fn lemma_add_message_keeps_sessions_well_formed(s: SessionView, m: MessageView)
    requires
        spec_session_wf(s),
    ensures
        spec_session_wf(spec_add_message(s, m).0),
{
    let after = spec_add_message(s, m).0;
    let parties = s.round.parties;
    if !s.finished && spec_open(m, s.session_id, s.round.index, spec_last_accepted(s, m.kind))
        is Ok {
        assert(spec_authentic(m));
        assert(spec_slots_wf(s, s.received, s.round.index));
        assert(spec_slots_wf(s, s.pending, (s.round.index + 1) as u32));
        if m.kind is Confirmation {
            if spec_place_confirmation(s, m) is Ok {
                let q = spec_position(parties.audience, m.sender);
                let claims = spec_claims(s, m)->0;
                assert(spec_claims_signed(s, claims));
                assert forall|k: int| 0 <= k < claims.len() implies (#[trigger] claims[k]).reporter
                    == m.sender by {}
            }
        } else {
            if spec_place_payload(s, m) is Ok {
                let p = spec_position(parties.senders, m.sender);
                assert(parties.senders[p] == m.sender);
            }
        }
        assert(spec_slots_wf(after, after.received, after.round.index));
        assert(spec_slots_wf(after, after.pending, (after.round.index + 1) as u32));
    }
}

/// Finalizing keeps a well-formed session well formed, and its outcome is
/// well formed.
pub proof fn lemma_finalize_keeps_sessions_well_formed(s: SessionView)
    requires
        spec_session_wf(s),
    ensures
        spec_session_wf(spec_session_finalize(s).0),
        crate::protocols::round::spec_outcome_wf(spec_session_finalize(s).1),
{
    let after = spec_session_finalize(s).0;
    lemma_outcomes_are_well_formed(s.round, spec_payload_slots(s.received));
    assert(spec_slots_wf(s, s.received, s.round.index));
    assert(spec_slots_wf(s, s.pending, (s.round.index + 1) as u32));
    assert(spec_slots_wf(after, after.received, after.round.index));
    assert(spec_slots_wf(after, after.pending, (after.round.index + 1) as u32));
}

/// Handing out messages keeps a well-formed session well formed.
pub proof fn lemma_outgoing_keeps_sessions_well_formed(s: SessionView)
    requires
        spec_session_wf(s),
    ensures
        spec_session_wf(spec_outgoing(s).0),
{
    let after = spec_outgoing(s).0;
    assert(spec_slots_wf(s, s.received, s.round.index));
    assert(spec_slots_wf(s, s.pending, (s.round.index + 1) as u32));
    assert(spec_slots_wf(after, after.received, after.round.index));
    assert(spec_slots_wf(after, after.pending, (after.round.index + 1) as u32));
}

/// The order in which the messages of one round arrive at a session: the
/// positions of the senders whose payloads arrive, and the positions of
/// the members of the audience whose confirmations arrive.
pub struct Delivery {
    pub order: Seq<int>,
    pub reporters: Seq<int>,
}

/// Whether a delivery brings everything a round expects: every other
/// sender and every other member of the audience has its turn exactly
/// once.
pub open spec fn spec_delivers(parties: PartiesView, d: Delivery) -> bool {
    &&& spec_order(parties.senders, parties.me, d.order)
    &&& spec_covers(parties.senders, parties.me, d.order)
    &&& spec_order(parties.audience, parties.me, d.reporters)
    &&& spec_covers(parties.audience, parties.me, d.reporters)
}

/// Whether `keys` holds the secrets behind the identities in `set`.
pub open spec fn spec_keys_of(set: Seq<u64>, keys: Seq<u64>) -> bool {
    &&& keys.len() == set.len()
    &&& forall|p: int| 0 <= p < keys.len() ==> set[p] == spec_point(#[trigger] keys[p])
}

/// The session after an honest round: every payload and, in a broadcast
/// round, every confirmation has been handed in.
pub open spec fn spec_after_round(
    s: SessionView,
    keys: Seq<u64>,
    audience_keys: Seq<u64>,
    payloads: Seq<Seq<u8>>,
    d: Delivery,
) -> SessionView {
    let s1 = spec_deliver(s, spec_honest_envelopes(s, keys, payloads, d.order));
    if spec_needs_consensus(s) {
        spec_deliver(s1, spec_honest_confirmations(s1, keys, payloads, audience_keys, d.reporters))
    } else {
        s1
    }
}

/// What finalizing yields after an honest round.
pub open spec fn spec_round_outcome(
    s: SessionView,
    keys: Seq<u64>,
    audience_keys: Seq<u64>,
    payloads: Seq<Seq<u8>>,
    d: Delivery,
) -> FinalizeOutcomeView {
    spec_session_finalize(spec_after_round(s, keys, audience_keys, payloads, d)).1
}

/// The session after an honest round was finalized.
pub open spec fn spec_next_round(
    s: SessionView,
    keys: Seq<u64>,
    audience_keys: Seq<u64>,
    payloads: Seq<Seq<u8>>,
    d: Delivery,
) -> SessionView {
    spec_session_finalize(spec_after_round(s, keys, audience_keys, payloads, d)).0
}

/// Whether a running session stands at the start of a round: it is well
/// formed and nothing is filed.
pub open spec fn spec_fresh(s: SessionView) -> bool {
    &&& spec_session_wf(s)
    &&& !s.finished
    &&& forall|p: int| 0 <= p < s.received.len() ==> (#[trigger] s.received[p]) is None
    &&& forall|p: int| 0 <= p < s.pending.len() ==> (#[trigger] s.pending[p]) is None
    &&& forall|q: int| 0 <= q < s.confirmations.len() ==> (#[trigger] s.confirmations[q]) is None
}

/// A session that starts on a well-formed round for its own key is fresh.
pub proof fn lemma_initial_session_is_fresh(session_id: u64, secret: u64, round: RoundView)
    requires
        crate::protocols::round::spec_round_wf(round),
        round.parties.me == spec_point(secret),
    ensures
        spec_fresh(spec_initial(session_id, secret, round)),
{
}

/// An honest round that is not the last moves the session on: after the
/// payloads and confirmations of the others, in any order, finalizing
/// yields the next round, and the session stands at its start, for the
/// same parties, in the same run and with the same key.
pub proof fn lemma_honest_round_moves_on(
    s: SessionView,
    keys: Seq<u64>,
    audience_keys: Seq<u64>,
    payloads: Seq<Seq<u8>>,
    d: Delivery,
)
    requires
        spec_fresh(s),
        spec_honest_round(s, keys, payloads),
        spec_keys_of(s.round.parties.audience, audience_keys),
        spec_delivers(s.round.parties, d),
        spec_finalize(s.round, spec_peer_slots(s.round.parties, payloads)) is AnotherRound,
    ensures
        spec_round_outcome(s, keys, audience_keys, payloads, d) == spec_finalize(
            s.round,
            spec_peer_slots(s.round.parties, payloads),
        ),
        spec_fresh(spec_next_round(s, keys, audience_keys, payloads, d)),
        spec_next_round(s, keys, audience_keys, payloads, d).round == spec_finalize(
            s.round,
            spec_peer_slots(s.round.parties, payloads),
        )->AnotherRound_0,
        spec_next_round(s, keys, audience_keys, payloads, d).round.parties == s.round.parties,
        spec_next_round(s, keys, audience_keys, payloads, d).session_id == s.session_id,
        spec_next_round(s, keys, audience_keys, payloads, d).secret == s.secret,
{
    lemma_honest_round_completes(s, keys, payloads, audience_keys, d.order, d.reporters);
    lemma_honest_payloads_are_filed(s, keys, payloads, d.order);
    lemma_filed_session_is_well_formed(s, keys, payloads, d.order);
    let s1 = spec_after_payloads(s, keys, payloads, d.order);
    let after = spec_after_round(s, keys, audience_keys, payloads, d);
    if spec_needs_consensus(s) {
        assert(spec_honest_audience(s1, keys, payloads, audience_keys));
        lemma_honest_confirmations_are_filed(s1, keys, payloads, audience_keys, d.reporters);
        lemma_confirmed_session_is_well_formed(s1, keys, payloads, audience_keys, d.reporters);
    }
    assert(spec_session_wf(after));
    assert(after.pending == s.pending);
    assert(after.round == s.round);
    lemma_outcomes_are_well_formed(s.round, spec_peer_slots(s.round.parties, payloads));
    lemma_finalize_keeps_sessions_well_formed(after);
    let next = spec_next_round(s, keys, audience_keys, payloads, d);
    assert forall|p: int| 0 <= p < next.received.len() implies (#[trigger] next.received[p])
        is None by {
        assert(s.pending[p] is None);
    }
}

/// A session that stands at the start of a round in which every sender is
/// honest is in an honest round.
proof fn lemma_fresh_round_is_honest(s: SessionView, keys: Seq<u64>, payloads: Seq<Seq<u8>>)
    requires
        spec_fresh(s),
        s.round.parties.audience.contains(s.round.parties.me),
        spec_keys_of(s.round.parties.senders, keys),
        payloads.len() == s.round.parties.senders.len(),
        spec_needs_consensus(s) ==> forall|p: int|
            0 <= p < payloads.len() && s.round.parties.senders[p] == s.round.parties.me
                ==> #[trigger] payloads[p] == crate::protocols::round::spec_payload(s.round, 0),
    ensures
        spec_honest_round(s, keys, payloads),
{
}

/// Key generation among honest parties succeeds: whatever the secrets and
/// the order of delivery, the session of every party moves from its first
/// round to its second and ends with a key share. The shares of all
/// parties name the same holders with the same public shares, the public
/// points of the secret shares of all, and these add up to one public key,
/// the public point of the sum of the secret shares.
pub proof fn lemma_honest_key_generation_succeeds(
    session_id: u64,
    participants: Seq<u64>,
    keys: Seq<u64>,
    secrets: Seq<u64>,
    i: int,
    first: Delivery,
    second: Delivery,
)
    requires
        is_canonical(participants),
        spec_keys_of(participants, keys),
        secrets.len() == participants.len(),
        0 <= i < participants.len(),
        spec_delivers(spec_everybody(participants, i), first),
        spec_delivers(spec_everybody(participants, i), second),
    ensures
        spec_round_outcome(
            spec_next_round(
                spec_initial(
                    session_id,
                    keys[i],
                    spec_generation_round(ProtocolKind::KeyInit, participants, secrets, i),
                ),
                keys,
                keys,
                spec_commit_payloads(secrets),
                first,
            ),
            keys,
            keys,
            spec_reveal_payloads(secrets, false),
            second,
        ) == FinalizeOutcomeView::Result(
            spec_honest_generation_result(ProtocolKind::KeyInit, participants, secrets, i),
        ),
        spec_sum(spec_points(secrets)) == spec_point(spec_sum(secrets)),
{
    let round1 = spec_generation_round(ProtocolKind::KeyInit, participants, secrets, i);
    let s0 = spec_initial(session_id, keys[i], round1);
    lemma_position_is_unique(participants, i);
    lemma_honest_key_generation(participants, secrets, i);
    lemma_initial_session_is_fresh(session_id, keys[i], round1);
    let payloads1 = spec_commit_payloads(secrets);
    assert forall|p: int|
        0 <= p < payloads1.len() && participants[p] == participants[i] implies #[trigger] payloads1[p]
        == crate::protocols::round::spec_payload(round1, 0) by {
        lemma_position_is_unique(participants, p);
    }
    lemma_fresh_round_is_honest(s0, keys, payloads1);
    lemma_honest_round_moves_on(s0, keys, keys, payloads1, first);
    let s1 = spec_next_round(s0, keys, keys, payloads1, first);
    let round2 = spec_key_reveal_round(participants, secrets, i);
    let payloads2 = spec_reveal_payloads(secrets, false);
    assert forall|p: int|
        0 <= p < payloads2.len() && participants[p] == participants[i] implies #[trigger] payloads2[p]
        == crate::protocols::round::spec_payload(round2, 0) by {
        lemma_position_is_unique(participants, p);
    }
    lemma_fresh_round_is_honest(s1, keys, payloads2);
    lemma_honest_round_completes(s1, keys, payloads2, keys, second.order, second.reporters);
    crate::tools::arithmetic::lemma_point_of_sequence_sum(secrets);
}

/// Auxiliary generation among honest parties succeeds: whatever the
/// secrets and the order of delivery, the session of every party ends
/// after its only round with its auxiliary data, and the data of all
/// parties name the same holders with the same public values.
pub proof fn lemma_honest_auxiliary_generation_succeeds(
    session_id: u64,
    participants: Seq<u64>,
    keys: Seq<u64>,
    secrets: Seq<u64>,
    i: int,
    only: Delivery,
)
    requires
        is_canonical(participants),
        spec_keys_of(participants, keys),
        secrets.len() == participants.len(),
        0 <= i < participants.len(),
        spec_delivers(spec_everybody(participants, i), only),
    ensures
        spec_round_outcome(
            spec_initial(
                session_id,
                keys[i],
                spec_generation_round(ProtocolKind::AuxGen, participants, secrets, i),
            ),
            keys,
            keys,
            spec_reveal_payloads(secrets, true),
            only,
        ) == FinalizeOutcomeView::Result(
            spec_honest_generation_result(ProtocolKind::AuxGen, participants, secrets, i),
        ),
{
    let round1 = spec_generation_round(ProtocolKind::AuxGen, participants, secrets, i);
    let s0 = spec_initial(session_id, keys[i], round1);
    lemma_position_is_unique(participants, i);
    lemma_honest_auxiliary_generation(participants, secrets, i);
    lemma_initial_session_is_fresh(session_id, keys[i], round1);
    let payloads1 = spec_reveal_payloads(secrets, true);
    assert forall|p: int|
        0 <= p < payloads1.len() && participants[p] == participants[i] implies #[trigger] payloads1[p]
        == crate::protocols::round::spec_payload(round1, 0) by {
        lemma_position_is_unique(participants, p);
    }
    lemma_fresh_round_is_honest(s0, keys, payloads1);
    lemma_honest_round_completes(s0, keys, payloads1, keys, only.order, only.reporters);
}

/// In every round of an honest signing run, what a holder is taken to
/// send is what its own round has it send.
proof fn lemma_signing_payloads_are_own(
    holders: Seq<u64>,
    shares: Seq<u64>,
    nonces: Seq<u64>,
    message_digest: u64,
    i: int,
)
    requires
        is_canonical(holders),
        shares.len() == holders.len(),
        nonces.len() == holders.len(),
        0 <= i < holders.len(),
    ensures
        forall|p: int|
            0 <= p < holders.len() && holders[p] == holders[i] ==> #[trigger] spec_commit_payloads(
                nonces,
            )[p] == crate::protocols::round::spec_payload(
                spec_signing_round_of(1, holders, shares, nonces, message_digest, i),
                0,
            ),
        forall|p: int|
            0 <= p < holders.len() && holders[p] == holders[i] ==> #[trigger] spec_reveal_payloads(
                nonces,
                false,
            )[p] == crate::protocols::round::spec_payload(
                spec_signing_round_of(2, holders, shares, nonces, message_digest, i),
                0,
            ),
        forall|p: int|
            0 <= p < holders.len() && holders[p] == holders[i] ==> #[trigger] spec_partial_payloads(
                shares,
                nonces,
                message_digest,
            )[p] == crate::protocols::round::spec_payload(
                spec_signing_round_of(3, holders, shares, nonces, message_digest, i),
                0,
            ),
{
    assert forall|p: int| 0 <= p < holders.len() && holders[p] == holders[i] implies p == i by {
        lemma_position_is_unique(holders, p);
        lemma_position_is_unique(holders, i);
    }
}

/// An honest signing run reaches its last round: after the commitments and
/// the nonce points were exchanged, the session of every holder stands at
/// the start of the round in which the partial signatures are exchanged.
proof fn lemma_honest_signing_reaches_the_last_round(
    session_id: u64,
    holders: Seq<u64>,
    keys: Seq<u64>,
    shares: Seq<u64>,
    nonces: Seq<u64>,
    message_digest: u64,
    i: int,
    first: Delivery,
    second: Delivery,
)
    requires
        is_canonical(holders),
        spec_keys_of(holders, keys),
        shares.len() == holders.len(),
        nonces.len() == holders.len(),
        0 <= i < holders.len(),
        spec_delivers(spec_everybody(holders, i), first),
        spec_delivers(spec_everybody(holders, i), second),
    ensures
        ({
            let reached = spec_next_round(
                spec_next_round(
                    spec_initial(
                        session_id,
                        keys[i],
                        spec_signing_round_of(1, holders, shares, nonces, message_digest, i),
                    ),
                    keys,
                    keys,
                    spec_commit_payloads(nonces),
                    first,
                ),
                keys,
                keys,
                spec_reveal_payloads(nonces, false),
                second,
            );
            &&& spec_fresh(reached)
            &&& reached.round == spec_signing_round_of(
                3,
                holders,
                shares,
                nonces,
                message_digest,
                i,
            )
        }),
{
    let round1 = spec_signing_round_of(1, holders, shares, nonces, message_digest, i);
    let s0 = spec_initial(session_id, keys[i], round1);
    lemma_position_is_unique(holders, i);
    lemma_honest_signing(holders, shares, nonces, message_digest, i);
    lemma_signing_payloads_are_own(holders, shares, nonces, message_digest, i);
    lemma_initial_session_is_fresh(session_id, keys[i], round1);
    let payloads1 = spec_commit_payloads(nonces);
    lemma_fresh_round_is_honest(s0, keys, payloads1);
    lemma_honest_round_moves_on(s0, keys, keys, payloads1, first);
    let s1 = spec_next_round(s0, keys, keys, payloads1, first);
    let payloads2 = spec_reveal_payloads(nonces, false);
    lemma_fresh_round_is_honest(s1, keys, payloads2);
    lemma_honest_round_moves_on(s1, keys, keys, payloads2, second);
}

/// Signing among honest holders succeeds: whatever the nonces and the
/// order of delivery, the session of every holder moves through its three
/// rounds and ends with a signature; all holders obtain the same
/// signature, and it is valid for the message under the public key their
/// shares add up to.
pub proof fn lemma_honest_signing_succeeds(
    session_id: u64,
    holders: Seq<u64>,
    keys: Seq<u64>,
    shares: Seq<u64>,
    nonces: Seq<u64>,
    message_digest: u64,
    i: int,
    first: Delivery,
    second: Delivery,
    third: Delivery,
)
    requires
        is_canonical(holders),
        spec_keys_of(holders, keys),
        shares.len() == holders.len(),
        nonces.len() == holders.len(),
        0 <= i < holders.len(),
        spec_delivers(spec_everybody(holders, i), first),
        spec_delivers(spec_everybody(holders, i), second),
        spec_delivers(spec_everybody(holders, i), third),
    ensures
        spec_round_outcome(
            spec_next_round(
                spec_next_round(
                    spec_initial(
                        session_id,
                        keys[i],
                        spec_signing_round_of(1, holders, shares, nonces, message_digest, i),
                    ),
                    keys,
                    keys,
                    spec_commit_payloads(nonces),
                    first,
                ),
                keys,
                keys,
                spec_reveal_payloads(nonces, false),
                second,
            ),
            keys,
            keys,
            spec_partial_payloads(shares, nonces, message_digest),
            third,
        ) == FinalizeOutcomeView::Result(
            ProtocolResultView::Signature(spec_honest_signature(shares, nonces, message_digest)),
        ),
        spec_signature_verifies(
            spec_honest_signature(shares, nonces, message_digest),
            spec_sum(spec_points(shares)),
            message_digest,
        ),
{
    lemma_honest_signing_reaches_the_last_round(
        session_id,
        holders,
        keys,
        shares,
        nonces,
        message_digest,
        i,
        first,
        second,
    );
    let s2 = spec_next_round(
        spec_next_round(
            spec_initial(
                session_id,
                keys[i],
                spec_signing_round_of(1, holders, shares, nonces, message_digest, i),
            ),
            keys,
            keys,
            spec_commit_payloads(nonces),
            first,
        ),
        keys,
        keys,
        spec_reveal_payloads(nonces, false),
        second,
    );
    lemma_position_is_unique(holders, i);
    lemma_honest_signing(holders, shares, nonces, message_digest, i);
    lemma_signing_payloads_are_own(holders, shares, nonces, message_digest, i);
    let payloads3 = spec_partial_payloads(shares, nonces, message_digest);
    lemma_fresh_round_is_honest(s2, keys, payloads3);
    lemma_honest_round_completes(s2, keys, payloads3, keys, third.order, third.reporters);
}

/// Key refresh and key resharing among honest parties succeed: whatever
/// the parts the old holders split their shares into and the order of
/// delivery, the session of every new holder moves from its first round to
/// its second and ends with a key share; the shares of all new holders
/// name the same holders with the same public shares, and each holder's
/// secret share is the sum of the parts it was sent.
pub proof fn lemma_honest_redistribution_succeeds(
    kind: ProtocolKind,
    session_id: u64,
    old_holders: Seq<u64>,
    new_holders: Seq<u64>,
    old_keys: Seq<u64>,
    new_keys: Seq<u64>,
    old_secrets: Seq<u64>,
    parts: Seq<Seq<u64>>,
    j: int,
    first: Delivery,
    second: Delivery,
)
    requires
        kind is KeyRefresh || kind is KeyResharing,
        kind is KeyRefresh ==> old_holders == new_holders,
        is_canonical(old_holders),
        is_canonical(new_holders),
        spec_keys_of(old_holders, old_keys),
        spec_keys_of(new_holders, new_keys),
        old_secrets.len() == old_holders.len(),
        parts.len() == old_holders.len(),
        forall|p: int| 0 <= p < parts.len() ==> (#[trigger] parts[p]).len() == new_holders.len(),
        forall|p: int| 0 <= p < parts.len() ==> spec_sum(#[trigger] parts[p]) == old_secrets[p],
        0 <= j < new_holders.len(),
        spec_delivers(
            PartiesView { me: new_holders[j], senders: old_holders, audience: new_holders },
            first,
        ),
        spec_delivers(
            PartiesView { me: new_holders[j], senders: old_holders, audience: new_holders },
            second,
        ),
    ensures
        spec_round_outcome(
            spec_next_round(
                spec_initial(
                    session_id,
                    new_keys[j],
                    spec_announce_round(
                        kind,
                        old_holders,
                        new_holders,
                        old_secrets,
                        parts,
                        new_holders[j],
                    ),
                ),
                old_keys,
                new_keys,
                Seq::new(parts.len(), |p: int| spec_announce_payload(parts[p])),
                first,
            ),
            old_keys,
            new_keys,
            Seq::new(parts.len(), |p: int| spec_share_payload(parts[p], j)),
            second,
        ) == FinalizeOutcomeView::Result(
            ProtocolResultView::KeyShare(spec_honest_new_share(new_holders, parts, j)),
        ),
{
    let me = new_holders[j];
    let round1 = spec_announce_round(kind, old_holders, new_holders, old_secrets, parts, me);
    let s0 = spec_initial(session_id, new_keys[j], round1);
    lemma_position_is_unique(new_holders, j);
    lemma_honest_redistribution(kind, old_holders, new_holders, old_secrets, parts, j);
    assert(crate::protocols::round::spec_round_wf(round1)) by {
        if old_holders.contains(me) {
            let at = spec_position(old_holders, me);
            assert(parts[at].len() == new_holders.len());
        }
    }
    lemma_initial_session_is_fresh(session_id, new_keys[j], round1);
    let payloads1 = Seq::new(parts.len(), |p: int| spec_announce_payload(parts[p]));
    assert forall|p: int|
        0 <= p < payloads1.len() && old_holders[p] == me implies #[trigger] payloads1[p]
        == crate::protocols::round::spec_payload(round1, 0) by {
        lemma_position_is_unique(old_holders, p);
    }
    lemma_fresh_round_is_honest(s0, old_keys, payloads1);
    lemma_honest_round_moves_on(s0, old_keys, new_keys, payloads1, first);
    let s1 = spec_next_round(s0, old_keys, new_keys, payloads1, first);
    let payloads2 = Seq::new(parts.len(), |p: int| spec_share_payload(parts[p], j));
    lemma_fresh_round_is_honest(s1, old_keys, payloads2);
    lemma_honest_round_completes(s1, old_keys, payloads2, new_keys, second.order, second.reporters);
}

} // verus!
