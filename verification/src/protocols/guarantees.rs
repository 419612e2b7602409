//! What honest runs of the protocols lead to.
//!
//! Each statement takes the secrets of all parties, gives every party the
//! payloads the others send when they follow the protocol, and says what
//! finalizing its rounds yields. The results of different parties differ in
//! the owner and its secret only, so all parties end up with the same
//! public data.

use vstd::prelude::*;
use crate::participants::{is_canonical, lemma_position_is_unique, spec_position};
use crate::protocols::commit_reveal::{
    spec_commit_outcome,
    spec_commit_payload,
    spec_commitment,
    spec_reveal_fault_at,
    spec_reveal_outcome,
    spec_reveal_payload,
};
use crate::protocols::parties::{
    spec_column,
    spec_examine_slot,
    spec_rows,
    spec_slot_fault,
    PartiesView,
};
use crate::protocols::redistribution::{
    spec_announce_fault_at,
    spec_announce_outcome,
    spec_announce_payload,
    spec_announced_for,
    spec_distribute_outcome,
    spec_new_public_shares,
    spec_own_part,
    spec_share_fault_at,
    spec_share_payload,
};
use crate::protocols::results::{
    spec_signature_verifies,
    spec_signing_challenge,
    AuxInfoView,
    KeyShare,
    KeyShareView,
    ProtocolResultView,
    Signature,
};
use crate::protocols::parties::lemma_no_slot_fault;
use crate::protocols::redistribution::lemma_new_share_is_consistent;
use crate::protocols::round::{
    spec_follows,
    spec_outcome_wf,
    spec_round_wf,
    spec_finalize,
    FinalizeOutcomeView,
    ProtocolKind,
    RoundStateView,
    RoundView,
};
use crate::protocols::signing::{
    spec_common_challenge,
    spec_partial,
    spec_partial_fault_at,
    spec_partial_outcome,
    spec_partial_payload,
    spec_partial_verifies,
};
use crate::sigma::fac::FacProof;
use crate::tools::arithmetic::{
    lemma_sum_exchange,
    spec_column_sums,
    spec_row_sums,
    lemma_point_of_product,
    lemma_point_of_sequence_sum,
    lemma_point_of_sum,
    lemma_sum_of_scaled,
    lemma_sum_of_zip,
    spec_add,
    spec_mul,
    spec_point,
    spec_points,
    spec_scaled,
    spec_sum,
    spec_zip_add,
};
use crate::tools::codec::{
    lemma_decode_encode,
    spec_encode_scalars,
};
use crate::tools::search::lemma_first_index;

verus! {

/// The slots of a party that has received the given payloads from the
/// other senders: one per sender, by position, with this party's own slot
/// empty.
pub open spec fn spec_peer_slots(parties: PartiesView, payloads: Seq<Seq<u8>>) -> Seq<
    Option<Seq<u8>>,
> {
    Seq::new(
        payloads.len(),
        |p: int|
            if parties.senders[p] == parties.me {
                None
            } else {
                Some(payloads[p])
            },
    )
}

/// The encodings of the rows of a table of scalars.
pub open spec fn spec_encoded(values: Seq<Seq<u64>>) -> Seq<Seq<u8>> {
    Seq::new(values.len(), |p: int| spec_encode_scalars(values[p]))
}

/// The one-scalar rows that hold the given scalars.
pub open spec fn spec_singles(values: Seq<u64>) -> Seq<Seq<u64>> {
    Seq::new(values.len(), |p: int| seq![values[p]])
}

/// A party whose slots hold one well-formed payload per other sender finds
/// no slot at fault and reads exactly what was sent.
pub proof fn lemma_full_slots_are_read(
    parties: PartiesView,
    width: int,
    own: Seq<u64>,
    values: Seq<Seq<u64>>,
)
    requires
        values.len() == parties.senders.len(),
        forall|p: int| 0 <= p < values.len() ==> (#[trigger] values[p]).len() == width,
        forall|p: int|
            0 <= p < values.len() && parties.senders[p] == parties.me ==> #[trigger] values[p]
                == own,
    ensures
        spec_slot_fault(parties, width, spec_peer_slots(parties, spec_encoded(values))) is None,
        spec_rows(parties, own, spec_peer_slots(parties, spec_encoded(values))) == values,
{
    let slots = spec_peer_slots(parties, spec_encoded(values));
    let bad = |p: int| spec_examine_slot(parties, width, slots, p) is Some;
    lemma_first_index(bad, 0, parties.senders.len() as int);
    assert forall|p: int| 0 <= p < parties.senders.len() implies !#[trigger] bad(p) by {
        lemma_decode_encode(values[p]);
        assert(values[p].len() == width);
        if parties.senders[p] != parties.me {
            assert(slots[p] == Some(spec_encode_scalars(values[p])));
        }
    }
    let rows = spec_rows(parties, own, slots);
    assert forall|p: int| 0 <= p < parties.senders.len() implies #[trigger] rows[p]
        == values[p] by {
        lemma_decode_encode(values[p]);
        if parties.senders[p] != parties.me {
            assert(slots[p] == Some(spec_encode_scalars(values[p])));
        }
    }
    assert(rows =~= values);
}

/// The proof a party attaches to what it reveals, if the round asks for
/// one.
pub open spec fn spec_argument(with_proof: bool) -> Option<FacProof> {
    if with_proof {
        Some(FacProof {  })
    } else {
        None
    }
}

/// The commitments of all parties.
pub open spec fn spec_all_commitments(secrets: Seq<u64>) -> Seq<u64> {
    Seq::new(secrets.len(), |p: int| spec_commitment(spec_point(secrets[p])))
}

/// What all parties send in a commit round.
pub open spec fn spec_commit_payloads(secrets: Seq<u64>) -> Seq<Seq<u8>> {
    Seq::new(secrets.len(), |p: int| spec_commit_payload(secrets[p]))
}

/// What all parties send in a reveal round.
pub open spec fn spec_reveal_payloads(secrets: Seq<u64>, with_proof: bool) -> Seq<Seq<u8>> {
    Seq::new(secrets.len(), |p: int| spec_reveal_payload(secrets[p], spec_argument(with_proof)))
}

/// The parties of a run in which everybody sends and receives, seen from
/// the party at position `i`.
pub open spec fn spec_everybody(participants: Seq<u64>, i: int) -> PartiesView {
    PartiesView { me: participants[i], senders: participants, audience: participants }
}

/// A commit round among honest parties gathers the commitments of all.
pub proof fn lemma_honest_commit_outcome(participants: Seq<u64>, secrets: Seq<u64>, i: int)
    requires
        is_canonical(participants),
        secrets.len() == participants.len(),
        0 <= i < participants.len(),
    ensures
        spec_commit_outcome(
            spec_everybody(participants, i),
            secrets[i],
            spec_peer_slots(spec_everybody(participants, i), spec_commit_payloads(secrets)),
        ) == Ok::<Seq<u64>, crate::sessions::error::Error>(spec_all_commitments(secrets)),
{
    let parties = spec_everybody(participants, i);
    let committed = spec_singles(spec_all_commitments(secrets));
    let slots = spec_peer_slots(parties, spec_commit_payloads(secrets));
    assert(slots =~= spec_peer_slots(parties, spec_encoded(committed)));
    let own = seq![spec_commitment(spec_point(secrets[i]))];
    assert forall|p: int|
        0 <= p < committed.len() && parties.senders[p] == parties.me implies #[trigger] committed[p]
        == own by {
        lemma_position_is_unique(participants, p);
        lemma_position_is_unique(participants, i);
    }
    lemma_full_slots_are_read(parties, 1, own, committed);
    assert(spec_column(committed) =~= spec_all_commitments(secrets));
}

/// A reveal round among honest parties gathers the public points of the
/// secrets of all: every value matches its commitment, if there was one,
/// and every proof is accepted, if one was asked for.
pub proof fn lemma_honest_reveal_outcome(
    participants: Seq<u64>,
    secrets: Seq<u64>,
    i: int,
    committed: bool,
    with_proof: bool,
)
    requires
        is_canonical(participants),
        secrets.len() == participants.len(),
        0 <= i < participants.len(),
    ensures
        spec_reveal_outcome(
            spec_everybody(participants, i),
            secrets[i],
            committed,
            spec_all_commitments(secrets),
            with_proof,
            spec_peer_slots(
                spec_everybody(participants, i),
                spec_reveal_payloads(secrets, with_proof),
            ),
        ) == Ok::<Seq<u64>, crate::sessions::error::Error>(spec_points(secrets)),
{
    let n = participants.len() as int;
    let parties = spec_everybody(participants, i);
    let revealed = spec_singles(spec_points(secrets));
    let payloads = spec_reveal_payloads(secrets, with_proof);
    let slots = spec_peer_slots(parties, payloads);
    assert forall|p: int| 0 <= p < n implies #[trigger] payloads[p] == spec_encode_scalars(
        revealed[p],
    ) by {
        assert(spec_reveal_payload(secrets[p], spec_argument(with_proof)) =~= spec_encode_scalars(
            seq![spec_point(secrets[p])],
        ));
    }
    assert(slots =~= spec_peer_slots(parties, spec_encoded(revealed)));
    let own = seq![spec_point(secrets[i])];
    assert forall|p: int|
        0 <= p < revealed.len() && parties.senders[p] == parties.me implies #[trigger] revealed[p]
        == own by {
        lemma_position_is_unique(participants, p);
        lemma_position_is_unique(participants, i);
    }
    lemma_full_slots_are_read(parties, 1, own, revealed);
    let column = spec_column(revealed);
    assert(column =~= spec_points(secrets));
    let bad = |p: int|
        spec_reveal_fault_at(
            parties,
            committed,
            spec_all_commitments(secrets),
            column,
            with_proof,
            slots,
            p,
        ) is Some;
    lemma_first_index(bad, 0, n);
    assert forall|p: int| 0 <= p < n implies !#[trigger] bad(p) by {}
}

/// The first round of key generation or auxiliary generation for the party
/// at position `i`.
pub open spec fn spec_generation_round(
    kind: ProtocolKind,
    participants: Seq<u64>,
    secrets: Seq<u64>,
    i: int,
) -> RoundView {
    RoundView {
        kind,
        index: 1,
        parties: spec_everybody(participants, i),
        state: RoundStateView::CommitReveal {
            secret: secrets[i],
            commitments: Seq::empty(),
            argument: spec_argument(kind is AuxGen),
        },
    }
}

/// What every party of an honest generation ends with: its own secret, and
/// the public points of the secrets of all.
pub open spec fn spec_honest_generation_result(
    kind: ProtocolKind,
    participants: Seq<u64>,
    secrets: Seq<u64>,
    i: int,
) -> ProtocolResultView {
    if kind is AuxGen {
        ProtocolResultView::AuxInfo(
            AuxInfoView {
                owner: participants[i],
                secret_aux: secrets[i],
                holders: participants,
                public_aux: spec_points(secrets),
            },
        )
    } else {
        ProtocolResultView::KeyShare(
            KeyShareView {
                owner: participants[i],
                secret_share: secrets[i],
                holders: participants,
                public_shares: spec_points(secrets),
            },
        )
    }
}

/// The second round of an honest key generation for the party at position
/// `i`.
pub open spec fn spec_key_reveal_round(participants: Seq<u64>, secrets: Seq<u64>, i: int) -> RoundView {
    RoundView {
        kind: ProtocolKind::KeyInit,
        index: 2,
        parties: spec_everybody(participants, i),
        state: RoundStateView::CommitReveal {
            secret: secrets[i],
            commitments: spec_all_commitments(secrets),
            argument: None,
        },
    }
}

/// In key generation, when every party follows the protocol, every party's
/// first round leads to its second and its second to a key share; the
/// shares of all parties list the same holders and the same public shares,
/// namely the public points of the secret shares of all.
pub proof fn lemma_honest_key_generation(participants: Seq<u64>, secrets: Seq<u64>, i: int)
    requires
        is_canonical(participants),
        secrets.len() == participants.len(),
        0 <= i < participants.len(),
    ensures
        spec_finalize(
            spec_generation_round(ProtocolKind::KeyInit, participants, secrets, i),
            spec_peer_slots(spec_everybody(participants, i), spec_commit_payloads(secrets)),
        ) == FinalizeOutcomeView::AnotherRound(spec_key_reveal_round(participants, secrets, i)),
        spec_finalize(
            spec_key_reveal_round(participants, secrets, i),
            spec_peer_slots(spec_everybody(participants, i), spec_reveal_payloads(secrets, false)),
        ) == FinalizeOutcomeView::Result(
            spec_honest_generation_result(ProtocolKind::KeyInit, participants, secrets, i),
        ),
{
    lemma_honest_commit_outcome(participants, secrets, i);
    lemma_honest_reveal_outcome(participants, secrets, i, true, false);
}

/// In auxiliary generation, when every party follows the protocol, every
/// party's only round leads to its auxiliary data; the data of all parties
/// list the same holders and the same public values, namely the public
/// points of the auxiliary secrets of all.
pub proof fn lemma_honest_auxiliary_generation(participants: Seq<u64>, secrets: Seq<u64>, i: int)
    requires
        is_canonical(participants),
        secrets.len() == participants.len(),
        0 <= i < participants.len(),
    ensures
        spec_finalize(
            spec_generation_round(ProtocolKind::AuxGen, participants, secrets, i),
            spec_peer_slots(spec_everybody(participants, i), spec_reveal_payloads(secrets, true)),
        ) == FinalizeOutcomeView::Result(
            spec_honest_generation_result(ProtocolKind::AuxGen, participants, secrets, i),
        ),
{
    lemma_honest_reveal_outcome(participants, secrets, i, false, true);
    let r = spec_generation_round(ProtocolKind::AuxGen, participants, secrets, i);
    let slots = spec_peer_slots(spec_everybody(participants, i), spec_reveal_payloads(secrets, true));
    // Without commitments, none is looked at.
    let parties = spec_everybody(participants, i);
    let revealed = spec_column(spec_rows(parties, seq![spec_point(secrets[i])], slots));
    assert forall|p: int|
        spec_reveal_fault_at(parties, false, Seq::empty(), revealed, true, slots, p)
            == spec_reveal_fault_at(
            parties,
            false,
            spec_all_commitments(secrets),
            revealed,
            true,
            slots,
            p,
        ) by {}
    crate::tools::search::lemma_first_index_agrees(
        |p: int|
            spec_reveal_fault_at(parties, false, Seq::empty(), revealed, true, slots, p) is Some,
        |p: int|
            spec_reveal_fault_at(
                parties,
                false,
                spec_all_commitments(secrets),
                revealed,
                true,
                slots,
                p,
            ) is Some,
        0,
        participants.len() as int,
    );
}

/// The round of signing with the given number for the holder at position
/// `i` of an honest run.
pub open spec fn spec_signing_round_of(
    index: u32,
    holders: Seq<u64>,
    shares: Seq<u64>,
    nonces: Seq<u64>,
    message_digest: u64,
    i: int,
) -> RoundView {
    RoundView {
        kind: ProtocolKind::InteractiveSigning,
        index,
        parties: spec_everybody(holders, i),
        state: RoundStateView::Signing {
            share_secret: shares[i],
            public_shares: spec_points(shares),
            message_digest,
            nonce: nonces[i],
            commitments: if index >= 2 {
                spec_all_commitments(nonces)
            } else {
                Seq::empty()
            },
            nonce_points: if index >= 3 {
                spec_points(nonces)
            } else {
                Seq::empty()
            },
        },
    }
}

/// The partial signatures of all holders in an honest run.
pub open spec fn spec_all_partials(shares: Seq<u64>, nonces: Seq<u64>, message_digest: u64) -> Seq<
    u64,
> {
    let challenge = spec_common_challenge(spec_points(nonces), spec_points(shares), message_digest);
    Seq::new(shares.len(), |p: int| spec_partial(nonces[p], challenge, shares[p]))
}

/// What all holders send in the last round of signing.
pub open spec fn spec_partial_payloads(shares: Seq<u64>, nonces: Seq<u64>, message_digest: u64) -> Seq<
    Seq<u8>,
> {
    Seq::new(
        shares.len(),
        |p: int|
            spec_partial_payload(
                nonces[p],
                shares[p],
                spec_points(nonces),
                spec_points(shares),
                message_digest,
            ),
    )
}

/// The signature of an honest run.
pub open spec fn spec_honest_signature(shares: Seq<u64>, nonces: Seq<u64>, message_digest: u64) -> Signature {
    Signature {
        r: spec_sum(spec_points(nonces)),
        s: spec_sum(spec_all_partials(shares, nonces, message_digest)),
    }
}

/// An honest partial signature verifies against its holder's nonce point
/// and public share.
pub proof fn lemma_honest_partial_verifies(nonce: u64, challenge: u64, share: u64)
    ensures
        spec_partial_verifies(
            spec_partial(nonce, challenge, share),
            challenge,
            spec_point(nonce),
            spec_point(share),
        ),
{
    lemma_point_of_sum(nonce, spec_mul(challenge, share));
    lemma_point_of_product(challenge, share);
}

/// The signature of an honest run is valid under the public key the shares
/// add up to.
pub proof fn lemma_honest_signature_verifies(shares: Seq<u64>, nonces: Seq<u64>, message_digest: u64)
    requires
        shares.len() == nonces.len(),
    ensures
        spec_signature_verifies(
            spec_honest_signature(shares, nonces, message_digest),
            spec_sum(spec_points(shares)),
            message_digest,
        ),
{
    let public_key = spec_sum(spec_points(shares));
    let r = spec_sum(spec_points(nonces));
    let e = spec_signing_challenge(r, public_key, message_digest);
    let partials = spec_all_partials(shares, nonces, message_digest);
    let scaled = spec_scaled(e, shares);
    assert(partials =~= spec_zip_add(nonces, scaled));
    lemma_sum_of_zip(nonces, scaled);
    lemma_sum_of_scaled(e, shares);
    // s = sum(nonces) + e * sum(shares)
    let k = spec_sum(nonces);
    let x = spec_sum(shares);
    assert(spec_sum(partials) == spec_add(k, spec_mul(e, x)));
    lemma_point_of_sum(k, spec_mul(e, x));
    lemma_point_of_product(e, x);
    lemma_point_of_sequence_sum(nonces);
    lemma_point_of_sequence_sum(shares);
}

/// The last round of signing among honest holders yields the signature.
proof fn lemma_honest_partial_outcome(
    holders: Seq<u64>,
    shares: Seq<u64>,
    nonces: Seq<u64>,
    message_digest: u64,
    i: int,
)
    requires
        is_canonical(holders),
        shares.len() == holders.len(),
        nonces.len() == holders.len(),
        0 <= i < holders.len(),
    ensures
        spec_partial_outcome(
            spec_everybody(holders, i),
            nonces[i],
            shares[i],
            spec_points(nonces),
            spec_points(shares),
            message_digest,
            spec_peer_slots(
                spec_everybody(holders, i),
                spec_partial_payloads(shares, nonces, message_digest),
            ),
        ) == Ok::<Signature, crate::sessions::error::Error>(
            spec_honest_signature(shares, nonces, message_digest),
        ),
{
    let n = holders.len() as int;
    let parties = spec_everybody(holders, i);
    let public_shares = spec_points(shares);
    let nonce_points = spec_points(nonces);
    let e = spec_common_challenge(nonce_points, public_shares, message_digest);
    let partials = spec_all_partials(shares, nonces, message_digest);
    let sent = spec_singles(partials);
    let slots = spec_peer_slots(parties, spec_partial_payloads(shares, nonces, message_digest));
    assert(slots =~= spec_peer_slots(parties, spec_encoded(sent)));
    let own = seq![spec_partial(nonces[i], e, shares[i])];
    assert forall|p: int|
        0 <= p < sent.len() && parties.senders[p] == parties.me implies #[trigger] sent[p]
        == own by {
        lemma_position_is_unique(holders, p);
        lemma_position_is_unique(holders, i);
    }
    lemma_full_slots_are_read(parties, 1, own, sent);
    let column = spec_column(sent);
    assert(column =~= partials);
    let bad = |p: int| spec_partial_fault_at(parties, column, e, nonce_points, public_shares, p);
    lemma_first_index(bad, 0, n);
    assert forall|p: int| 0 <= p < n implies !#[trigger] bad(p) by {
        lemma_honest_partial_verifies(nonces[p], e, shares[p]);
    }
}

/// In signing, when every holder follows the protocol and the public shares
/// are the public points of the secret shares, every holder's first round
/// leads to its second, its second to its third, and its third to a
/// signature; all holders obtain the same signature, and it is valid for
/// the message under the shared public key.
pub proof fn lemma_honest_signing(
    holders: Seq<u64>,
    shares: Seq<u64>,
    nonces: Seq<u64>,
    message_digest: u64,
    i: int,
)
    requires
        is_canonical(holders),
        shares.len() == holders.len(),
        nonces.len() == holders.len(),
        0 <= i < holders.len(),
    ensures
        spec_finalize(
            spec_signing_round_of(1, holders, shares, nonces, message_digest, i),
            spec_peer_slots(spec_everybody(holders, i), spec_commit_payloads(nonces)),
        ) == FinalizeOutcomeView::AnotherRound(
            spec_signing_round_of(2, holders, shares, nonces, message_digest, i),
        ),
        spec_finalize(
            spec_signing_round_of(2, holders, shares, nonces, message_digest, i),
            spec_peer_slots(spec_everybody(holders, i), spec_reveal_payloads(nonces, false)),
        ) == FinalizeOutcomeView::AnotherRound(
            spec_signing_round_of(3, holders, shares, nonces, message_digest, i),
        ),
        spec_finalize(
            spec_signing_round_of(3, holders, shares, nonces, message_digest, i),
            spec_peer_slots(
                spec_everybody(holders, i),
                spec_partial_payloads(shares, nonces, message_digest),
            ),
        ) == FinalizeOutcomeView::Result(
            ProtocolResultView::Signature(spec_honest_signature(shares, nonces, message_digest)),
        ),
        spec_signature_verifies(
            spec_honest_signature(shares, nonces, message_digest),
            spec_sum(spec_points(shares)),
            message_digest,
        ),
{
    lemma_honest_commit_outcome(holders, nonces, i);
    lemma_honest_reveal_outcome(holders, nonces, i, true, false);
    lemma_honest_partial_outcome(holders, shares, nonces, message_digest, i);
    lemma_honest_signature_verifies(shares, nonces, message_digest);
}

/// The first round of a redistribution for the party `me`, where the old
/// holder at position `p` splits its share into the parts `parts[p]`, one
/// per new holder.
pub open spec fn spec_announce_round(
    kind: ProtocolKind,
    old_holders: Seq<u64>,
    new_holders: Seq<u64>,
    old_secrets: Seq<u64>,
    parts: Seq<Seq<u64>>,
    me: u64,
) -> RoundView {
    RoundView {
        kind,
        index: 1,
        parties: PartiesView { me, senders: old_holders, audience: new_holders },
        state: RoundStateView::Redistribution {
            old_public_shares: spec_points(old_secrets),
            subshares: if old_holders.contains(me) {
                parts[spec_position(old_holders, me)]
            } else {
                Seq::empty()
            },
            announced: Seq::empty(),
        },
    }
}

/// The points all old holders announce.
pub open spec fn spec_all_announced(parts: Seq<Seq<u64>>) -> Seq<Seq<u64>> {
    Seq::new(parts.len(), |p: int| spec_points(parts[p]))
}

/// The parts all old holders send to the new holder at position `j`.
pub open spec fn spec_parts_for(parts: Seq<Seq<u64>>, j: int) -> Seq<u64> {
    Seq::new(parts.len(), |p: int| parts[p][j])
}

/// The key share an honest redistribution gives the new holder at position
/// `j`.
pub open spec fn spec_honest_new_share(new_holders: Seq<u64>, parts: Seq<Seq<u64>>, j: int) -> KeyShareView {
    KeyShareView {
        owner: new_holders[j],
        secret_share: spec_sum(spec_parts_for(parts, j)),
        holders: new_holders,
        public_shares: spec_new_public_shares(
            spec_all_announced(parts),
            new_holders.len() as int,
        ),
    }
}

/// In key refresh and key resharing, when every old holder follows the
/// protocol, every new holder's first round leads to its second and its
/// second to a key share. The shares of all new holders list the same
/// holders and the same public shares, and each holder's secret share is
/// the sum of the parts it was sent.
pub proof fn lemma_honest_redistribution(
    kind: ProtocolKind,
    old_holders: Seq<u64>,
    new_holders: Seq<u64>,
    old_secrets: Seq<u64>,
    parts: Seq<Seq<u64>>,
    j: int,
)
    requires
        kind is KeyRefresh || kind is KeyResharing,
        is_canonical(old_holders),
        is_canonical(new_holders),
        old_secrets.len() == old_holders.len(),
        parts.len() == old_holders.len(),
        forall|p: int| 0 <= p < parts.len() ==> (#[trigger] parts[p]).len() == new_holders.len(),
        forall|p: int| 0 <= p < parts.len() ==> spec_sum(#[trigger] parts[p]) == old_secrets[p],
        0 <= j < new_holders.len(),
    ensures
        spec_finalize(
            spec_announce_round(kind, old_holders, new_holders, old_secrets, parts, new_holders[j]),
            spec_peer_slots(
                spec_announce_round(
                    kind,
                    old_holders,
                    new_holders,
                    old_secrets,
                    parts,
                    new_holders[j],
                ).parties,
                Seq::new(parts.len(), |p: int| spec_announce_payload(parts[p])),
            ),
        ) matches FinalizeOutcomeView::AnotherRound(second) && spec_finalize(
            second,
            spec_peer_slots(
                second.parties,
                Seq::new(parts.len(), |p: int| spec_share_payload(parts[p], j)),
            ),
        ) == FinalizeOutcomeView::Result(
            ProtocolResultView::KeyShare(spec_honest_new_share(new_holders, parts, j)),
        ),
{
    let me = new_holders[j];
    let n = old_holders.len() as int;
    let first = spec_announce_round(kind, old_holders, new_holders, old_secrets, parts, me);
    let parties = first.parties;
    let subshares = first.state->Redistribution_subshares;
    let old_public = spec_points(old_secrets);
    lemma_position_is_unique(new_holders, j);
    // First round.
    let announced = spec_all_announced(parts);
    let slots1 = spec_peer_slots(
        parties,
        Seq::new(parts.len(), |p: int| spec_announce_payload(parts[p])),
    );
    assert(slots1 =~= spec_peer_slots(parties, spec_encoded(announced)));
    let own1 = spec_points(subshares);
    assert forall|p: int|
        0 <= p < announced.len() && parties.senders[p] == parties.me implies #[trigger] announced[p]
        == own1 by {
        lemma_position_is_unique(old_holders, p);
    }
    assert forall|p: int| 0 <= p < announced.len() implies (#[trigger] announced[p]).len()
        == new_holders.len() by {
        assert(parts[p].len() == new_holders.len());
    }
    lemma_full_slots_are_read(parties, new_holders.len() as int, own1, announced);
    let bad1 = |p: int| spec_announce_fault_at(parties, old_public, announced, p);
    lemma_first_index(bad1, 0, n);
    assert forall|p: int| 0 <= p < n implies !#[trigger] bad1(p) by {
        lemma_point_of_sequence_sum(parts[p]);
    }
    let second = RoundView {
        kind,
        index: 2,
        parties,
        state: RoundStateView::Redistribution {
            old_public_shares: old_public,
            subshares,
            announced,
        },
    };
    assert(spec_finalize(first, slots1) == FinalizeOutcomeView::AnotherRound(second));
    // Second round.
    let for_me = spec_parts_for(parts, j);
    let sent2 = spec_singles(for_me);
    let slots2 = spec_peer_slots(
        parties,
        Seq::new(parts.len(), |p: int| spec_share_payload(parts[p], j)),
    );
    assert(slots2 =~= spec_peer_slots(parties, spec_encoded(sent2)));
    let own2 = seq![spec_own_part(parties, subshares)];
    assert forall|p: int|
        0 <= p < sent2.len() && parties.senders[p] == parties.me implies #[trigger] sent2[p]
        == own2 by {
        lemma_position_is_unique(old_holders, p);
    }
    lemma_full_slots_are_read(parties, 1, own2, sent2);
    let column = spec_column(sent2);
    assert(column =~= for_me);
    let bad2 = |p: int| spec_share_fault_at(parties, announced, column, p);
    lemma_first_index(bad2, 0, n);
    assert forall|p: int| 0 <= p < n implies !#[trigger] bad2(p) by {
        assert(announced[p][j] == spec_point(parts[p][j]));
    }
    assert(spec_distribute_outcome(parties, subshares, announced, slots2) == Ok::<
        (u64, Seq<u64>),
        crate::sessions::error::Error,
    >((spec_sum(for_me), spec_new_public_shares(announced, new_holders.len() as int))));
}

/// A redistribution does not change the key: the public shares of the new
/// holders add up to what the public shares of the old holders add up to,
/// and the new secret shares add up to the old secret.
pub proof fn lemma_redistribution_keeps_the_key(
    old_secrets: Seq<u64>,
    parts: Seq<Seq<u64>>,
    new_holders: int,
)
    requires
        0 <= new_holders,
        parts.len() == old_secrets.len(),
        forall|p: int| 0 <= p < parts.len() ==> (#[trigger] parts[p]).len() == new_holders,
        forall|p: int| 0 <= p < parts.len() ==> spec_sum(#[trigger] parts[p]) == old_secrets[p],
    ensures
        spec_sum(spec_new_public_shares(spec_all_announced(parts), new_holders)) == spec_sum(
            spec_points(old_secrets),
        ),
        spec_sum(Seq::new(new_holders as nat, |q: int| spec_sum(spec_parts_for(parts, q))))
            == spec_sum(old_secrets),
{
    let announced = spec_all_announced(parts);
    assert forall|p: int| 0 <= p < announced.len() implies (#[trigger] announced[p]).len()
        == new_holders by {
        assert(parts[p].len() == new_holders);
    }
    // Public shares: by columns, then by rows.
    lemma_sum_exchange(announced, new_holders);
    assert(spec_new_public_shares(announced, new_holders) =~= spec_column_sums(
        announced,
        new_holders,
    )) by {
        assert forall|q: int| 0 <= q < new_holders implies spec_announced_for(announced, q)
            =~= Seq::new(announced.len(), |p: int| announced[p][q]) by {}
    }
    assert(spec_row_sums(announced) =~= spec_points(old_secrets)) by {
        assert forall|p: int| 0 <= p < announced.len() implies spec_sum(announced[p])
            == spec_point(old_secrets[p]) by {
            lemma_point_of_sequence_sum(parts[p]);
        }
    }
    // Secret shares: by columns, then by rows.
    lemma_sum_exchange(parts, new_holders);
    assert(Seq::new(new_holders as nat, |q: int| spec_sum(spec_parts_for(parts, q)))
        =~= spec_column_sums(parts, new_holders)) by {
        assert forall|q: int| 0 <= q < new_holders implies spec_parts_for(parts, q) =~= Seq::new(
            parts.len(),
            |p: int| parts[p][q],
        ) by {}
    }
    assert(spec_row_sums(parts) =~= old_secrets);
}

/// Finalizing a well-formed round, on whatever it received, yields a
/// well-formed outcome; and if the protocol goes on, it goes on with the
/// next round of the same protocol for the same parties. Rounds form a
/// straight line.
pub proof fn lemma_outcomes_are_well_formed(r: RoundView, slots: Seq<Option<Seq<u8>>>)
    requires
        spec_round_wf(r),
    ensures
        spec_outcome_wf(spec_finalize(r, slots)),
        spec_finalize(r, slots) matches FinalizeOutcomeView::AnotherRound(next) ==> spec_follows(
            r,
            next,
        ),
{
    let parties = r.parties;
    match r.state {
        RoundStateView::CommitReveal { secret, commitments, argument } => {
            if !(r.kind is KeyInit && r.index == 1) && spec_reveal_outcome(
                parties,
                secret,
                r.kind is KeyInit,
                commitments,
                r.kind is AuxGen,
                slots,
            ) is Ok {
                let at = spec_position(parties.senders, parties.me);
                assert(parties.senders.contains(parties.me));
                let revealed = spec_column(spec_rows(parties, seq![spec_point(secret)], slots));
                assert(revealed[at] == spec_point(secret));
            }
        },
        RoundStateView::Signing {
            share_secret,
            public_shares,
            message_digest,
            nonce,
            commitments,
            nonce_points,
        } => {},
        RoundStateView::Redistribution { old_public_shares, subshares, announced } => {
            if parties.audience.contains(parties.me) {
                if r.index == 1 {
                    let width = parties.audience.len() as int;
                    if spec_announce_outcome(parties, old_public_shares, subshares, slots) is Ok {
                        let rows = spec_rows(parties, spec_points(subshares), slots);
                        lemma_no_slot_fault(parties, width, slots);
                        assert forall|p: int| 0 <= p < rows.len() implies (#[trigger] rows[p]).len()
                            == width by {
                            assert(spec_examine_slot(parties, width, slots, p) is None);
                            if parties.senders[p] == parties.me {
                                assert(parties.senders.contains(parties.me));
                            }
                        }
                    }
                } else {
                    if spec_distribute_outcome(parties, subshares, announced, slots) is Ok {
                        lemma_new_share_is_consistent(parties, subshares, announced, slots);
                    }
                }
            }
        },
    }
}

} // verus!
