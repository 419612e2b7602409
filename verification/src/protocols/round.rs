//! Rounds: the steps of a protocol, and what finalizing one leads to.
//!
//! Every protocol is a straight line of rounds. A round knows who is
//! expected to send to this party, whether its payload is a broadcast that
//! needs consensus, what this party has to send, and how to turn what was
//! received into the next round or into the protocol's outcome.

use vstd::prelude::*;
use crate::participants::{is_canonical, spec_position};
use crate::protocols::commit_reveal::{
    commit_payload,
    finalize_commit,
    finalize_reveal,
    reveal_payload,
    spec_commit_outcome,
    spec_commit_payload,
    spec_reveal_outcome,
    spec_reveal_payload,
};
use crate::protocols::parties::{
    copy_scalars,
    spec_parties_wf,
    spec_rows_view,
    spec_slots,
    Parties,
    PartiesView,
};
use crate::tools::arithmetic::spec_points;
use crate::protocols::signing::{
    finalize_partial,
    partial_payload,
    spec_partial_outcome,
    spec_partial_payload,
};
use crate::protocols::redistribution::{
    announce_payload,
    finalize_announce,
    finalize_distribute,
    lemma_new_share_is_consistent,
    share_payload,
    spec_announce_outcome,
    spec_announce_payload,
    spec_distribute_outcome,
    spec_share_payload,
};
use crate::protocols::results::{
    spec_result_wf,
    AuxInfo,
    AuxInfoView,
    KeyShare,
    KeyShareView,
    ProtocolResult,
    ProtocolResultView,
};
use crate::sessions::error::Error;
use crate::sessions::signed_message::PayloadKind;
use crate::sigma::fac::FacProof;

verus! {

/// The protocols.
#[derive(Clone, Copy, Debug, PartialEq, Eq, Structural)]
pub enum ProtocolKind {
    /// Generation of a fresh shared key.
    KeyInit,
    /// Replacement of the shares of a key among its holders.
    KeyRefresh,
    /// Transfer of a key from its holders to a new set of holders.
    KeyResharing,
    /// Generation of auxiliary data.
    AuxGen,
    /// Signing of a prehashed message.
    InteractiveSigning,
}

/// The number of rounds of a protocol. Auxiliary generation reveals its
/// values in one round. Key generation commits and reveals, and key refresh
/// and key resharing announce and distribute, in two. Signing commits to
/// the nonces, reveals them, and signs, in three.
pub open spec fn spec_round_count(kind: ProtocolKind) -> u32 {
    match kind {
        ProtocolKind::AuxGen => 1,
        ProtocolKind::InteractiveSigning => 3,
        _ => 2,
    }
}

/// The category of the payloads of a round: the rounds that hand out
/// shares send each recipient its own payload, all others broadcast.
pub open spec fn spec_category(kind: ProtocolKind, index: u32) -> PayloadKind {
    match kind {
        ProtocolKind::KeyRefresh | ProtocolKind::KeyResharing => if index == 2 {
            PayloadKind::Direct
        } else {
            PayloadKind::Broadcast
        },
        _ => PayloadKind::Broadcast,
    }
}

/// The number of rounds of a protocol.
pub fn round_count(kind: ProtocolKind) -> (count: u32)
    ensures
        count == spec_round_count(kind),
{
    match kind {
        ProtocolKind::AuxGen => 1,
        ProtocolKind::InteractiveSigning => 3,
        _ => 2,
    }
}

/// The category of the payloads of a round.
pub fn category(kind: ProtocolKind, index: u32) -> (kind_of_payload: PayloadKind)
    ensures
        kind_of_payload == spec_category(kind, index),
{
    match kind {
        ProtocolKind::KeyRefresh | ProtocolKind::KeyResharing => if index == 2 {
            PayloadKind::Direct
        } else {
            PayloadKind::Broadcast
        },
        _ => PayloadKind::Broadcast,
    }
}

/// What a round has accumulated, by family of protocol.
#[derive(Debug)]
pub enum RoundState {
    /// Key generation and auxiliary generation: the party's secret, the
    /// commitments of all parties once the commit round of key generation
    /// is over, and the proof the party attaches to its revealed value, if
    /// the protocol asks for one.
    CommitReveal { secret: u64, commitments: Vec<u64>, argument: Option<FacProof> },
    /// Signing: the party's share and nonce, the public shares of all
    /// holders, the digest of the message, the commitments to the nonce
    /// points of all holders once the first round is over, and the nonce
    /// points themselves once the second is.
    Signing {
        share_secret: u64,
        public_shares: Vec<u64>,
        message_digest: u64,
        nonce: u64,
        commitments: Vec<u64>,
        nonce_points: Vec<u64>,
    },
    /// Key refresh and key resharing: the public shares of the old holders,
    /// the parts this party hands out if it is an old holder, and, once the
    /// first round is over, the points every old holder announced.
    Redistribution { old_public_shares: Vec<u64>, subshares: Vec<u64>, announced: Vec<Vec<u64>> },
}

/// The mathematical content of a [`RoundState`].
pub enum RoundStateView {
    CommitReveal { secret: u64, commitments: Seq<u64>, argument: Option<FacProof> },
    Signing {
        share_secret: u64,
        public_shares: Seq<u64>,
        message_digest: u64,
        nonce: u64,
        commitments: Seq<u64>,
        nonce_points: Seq<u64>,
    },
    Redistribution { old_public_shares: Seq<u64>, subshares: Seq<u64>, announced: Seq<Seq<u64>> },
}

impl View for RoundState {
    type V = RoundStateView;

    open spec fn view(&self) -> RoundStateView {
        match self {
            RoundState::CommitReveal { secret, commitments, argument } => {
                RoundStateView::CommitReveal {
                    secret: *secret,
                    commitments: commitments@,
                    argument: *argument,
                }
            },
            RoundState::Signing {
                share_secret,
                public_shares,
                message_digest,
                nonce,
                commitments,
                nonce_points,
            } => {
                RoundStateView::Signing {
                    share_secret: *share_secret,
                    public_shares: public_shares@,
                    message_digest: *message_digest,
                    nonce: *nonce,
                    commitments: commitments@,
                    nonce_points: nonce_points@,
                }
            },
            RoundState::Redistribution { old_public_shares, subshares, announced } => {
                RoundStateView::Redistribution {
                    old_public_shares: old_public_shares@,
                    subshares: subshares@,
                    announced: spec_rows_view(announced@),
                }
            },
        }
    }
}

/// One step of a protocol, for one party.
#[derive(Debug)]
pub struct Round {
    kind: ProtocolKind,
    index: u32,
    parties: Parties,
    state: RoundState,
}

/// The mathematical content of a [`Round`].
pub struct RoundView {
    pub kind: ProtocolKind,
    pub index: u32,
    pub parties: PartiesView,
    pub state: RoundStateView,
}

impl View for Round {
    type V = RoundView;

    closed spec fn view(&self) -> RoundView {
        RoundView {
            kind: self.kind,
            index: self.index,
            parties: self.parties@,
            state: self.state@,
        }
    }
}

/// What finalizing a round leads to.
#[derive(Debug)]
pub enum FinalizeOutcome {
    /// The protocol is over and this is its output.
    Result(ProtocolResult),
    /// The protocol goes on with this round.
    AnotherRound(Round),
    /// The protocol is over and has failed.
    Error(Error),
}

/// The mathematical content of a [`FinalizeOutcome`].
pub enum FinalizeOutcomeView {
    Result(ProtocolResultView),
    AnotherRound(RoundView),
    Error(Error),
}

impl View for FinalizeOutcome {
    type V = FinalizeOutcomeView;

    open spec fn view(&self) -> FinalizeOutcomeView {
        match self {
            FinalizeOutcome::Result(result) => FinalizeOutcomeView::Result(result@),
            FinalizeOutcome::AnotherRound(round) => FinalizeOutcomeView::AnotherRound(round@),
            FinalizeOutcome::Error(error) => FinalizeOutcomeView::Error(*error),
        }
    }
}

/// Whether a round is well formed: its parties are, its index is a round of
/// its protocol, and its state is that of its protocol's family, with one
/// entry per sender in what earlier rounds gathered.
pub open spec fn spec_round_wf(r: RoundView) -> bool {
    &&& spec_parties_wf(r.parties)
    &&& 1 <= r.index <= spec_round_count(r.kind)
    &&& match r.state {
        RoundStateView::CommitReveal { secret, commitments, argument } => {
            &&& r.kind is KeyInit || r.kind is AuxGen
            &&& r.parties.senders == r.parties.audience
            &&& r.kind is AuxGen <==> argument is Some
            &&& r.index == 2 ==> commitments.len() == r.parties.senders.len()
        },
        RoundStateView::Signing {
            share_secret,
            public_shares,
            message_digest,
            nonce,
            commitments,
            nonce_points,
        } => {
            &&& r.kind is InteractiveSigning
            &&& r.parties.senders == r.parties.audience
            &&& public_shares.len() == r.parties.senders.len()
            &&& r.index >= 2 ==> commitments.len() == r.parties.senders.len()
            &&& r.index == 3 ==> nonce_points.len() == r.parties.senders.len()
        },
        RoundStateView::Redistribution { old_public_shares, subshares, announced } => {
            &&& r.kind is KeyRefresh || r.kind is KeyResharing
            &&& r.kind is KeyRefresh ==> r.parties.senders == r.parties.audience
            &&& old_public_shares.len() == r.parties.senders.len()
            &&& r.parties.senders.contains(r.parties.me) ==> subshares.len()
                == r.parties.audience.len()
            &&& r.index == 2 && r.parties.audience.contains(r.parties.me) ==> {
                &&& announced.len() == r.parties.senders.len()
                &&& forall|p: int|
                    0 <= p < announced.len() ==> (#[trigger] announced[p]).len()
                        == r.parties.audience.len()
                &&& r.parties.senders.contains(r.parties.me) ==> announced[spec_position(
                    r.parties.senders,
                    r.parties.me,
                )] == spec_points(subshares)
            }
        },
    }
}

/// Whether an outcome is well formed.
pub open spec fn spec_outcome_wf(o: FinalizeOutcomeView) -> bool {
    match o {
        FinalizeOutcomeView::Result(result) => spec_result_wf(result),
        FinalizeOutcomeView::AnotherRound(round) => spec_round_wf(round),
        FinalizeOutcomeView::Error(_) => true,
    }
}

/// The payload a round has this party send to the recipient at position
/// `recipient` of the audience. A broadcast is the same for every recipient.
pub open spec fn spec_payload(r: RoundView, recipient: int) -> Seq<u8> {
    match r.state {
        RoundStateView::CommitReveal { secret, commitments, argument } => if r.kind is KeyInit
            && r.index == 1 {
            spec_commit_payload(secret)
        } else {
            spec_reveal_payload(secret, argument)
        },
        RoundStateView::Signing {
            share_secret,
            public_shares,
            message_digest,
            nonce,
            commitments,
            nonce_points,
        } => if r.index == 1 {
            spec_commit_payload(nonce)
        } else if r.index == 2 {
            spec_reveal_payload(nonce, None)
        } else {
            spec_partial_payload(nonce, share_secret, nonce_points, public_shares, message_digest)
        },
        RoundStateView::Redistribution { old_public_shares, subshares, announced } => if r.index
            == 1 {
            spec_announce_payload(subshares)
        } else if 0 <= recipient < subshares.len() {
            spec_share_payload(subshares, recipient)
        } else {
            Seq::empty()
        },
    }
}

/// What finalizing a round on the given slots leads to.
pub open spec fn spec_finalize(r: RoundView, slots: Seq<Option<Seq<u8>>>) -> FinalizeOutcomeView {
    match r.state {
        RoundStateView::CommitReveal { secret, commitments, argument } => if r.kind is KeyInit
            && r.index == 1 {
            match spec_commit_outcome(r.parties, secret, slots) {
                Err(e) => FinalizeOutcomeView::Error(e),
                Ok(gathered) => FinalizeOutcomeView::AnotherRound(
                    RoundView {
                        kind: r.kind,
                        index: 2,
                        parties: r.parties,
                        state: RoundStateView::CommitReveal {
                            secret,
                            commitments: gathered,
                            argument,
                        },
                    },
                ),
            }
        } else {
            match spec_reveal_outcome(
                r.parties,
                secret,
                r.kind is KeyInit,
                commitments,
                r.kind is AuxGen,
                slots,
            ) {
                Err(e) => FinalizeOutcomeView::Error(e),
                Ok(revealed) => FinalizeOutcomeView::Result(
                    if r.kind is AuxGen {
                        ProtocolResultView::AuxInfo(
                            AuxInfoView {
                                owner: r.parties.me,
                                secret_aux: secret,
                                holders: r.parties.senders,
                                public_aux: revealed,
                            },
                        )
                    } else {
                        ProtocolResultView::KeyShare(
                            KeyShareView {
                                owner: r.parties.me,
                                secret_share: secret,
                                holders: r.parties.senders,
                                public_shares: revealed,
                            },
                        )
                    },
                ),
            }
        },
        RoundStateView::Signing {
            share_secret,
            public_shares,
            message_digest,
            nonce,
            commitments,
            nonce_points,
        } => if r.index == 1 {
            match spec_commit_outcome(r.parties, nonce, slots) {
                Err(e) => FinalizeOutcomeView::Error(e),
                Ok(gathered) => FinalizeOutcomeView::AnotherRound(
                    RoundView {
                        kind: r.kind,
                        index: 2,
                        parties: r.parties,
                        state: RoundStateView::Signing {
                            share_secret,
                            public_shares,
                            message_digest,
                            nonce,
                            commitments: gathered,
                            nonce_points,
                        },
                    },
                ),
            }
        } else if r.index == 2 {
            match spec_reveal_outcome(r.parties, nonce, true, commitments, false, slots) {
                Err(e) => FinalizeOutcomeView::Error(e),
                Ok(revealed) => FinalizeOutcomeView::AnotherRound(
                    RoundView {
                        kind: r.kind,
                        index: 3,
                        parties: r.parties,
                        state: RoundStateView::Signing {
                            share_secret,
                            public_shares,
                            message_digest,
                            nonce,
                            commitments,
                            nonce_points: revealed,
                        },
                    },
                ),
            }
        } else {
            match spec_partial_outcome(
                r.parties,
                nonce,
                share_secret,
                nonce_points,
                public_shares,
                message_digest,
                slots,
            ) {
                Err(e) => FinalizeOutcomeView::Error(e),
                Ok(signature) => FinalizeOutcomeView::Result(
                    ProtocolResultView::Signature(signature),
                ),
            }
        },
        RoundStateView::Redistribution { old_public_shares, subshares, announced } => if r.index
            == 1 {
            if !r.parties.audience.contains(r.parties.me) {
                FinalizeOutcomeView::AnotherRound(RoundView { index: 2, ..r })
            } else {
                match spec_announce_outcome(r.parties, old_public_shares, subshares, slots) {
                    Err(e) => FinalizeOutcomeView::Error(e),
                    Ok(gathered) => FinalizeOutcomeView::AnotherRound(
                        RoundView {
                            kind: r.kind,
                            index: 2,
                            parties: r.parties,
                            state: RoundStateView::Redistribution {
                                old_public_shares,
                                subshares,
                                announced: gathered,
                            },
                        },
                    ),
                }
            }
        } else {
            if !r.parties.audience.contains(r.parties.me) {
                FinalizeOutcomeView::Result(ProtocolResultView::NoShare)
            } else {
                match spec_distribute_outcome(r.parties, subshares, announced, slots) {
                    Err(e) => FinalizeOutcomeView::Error(e),
                    Ok(made) => FinalizeOutcomeView::Result(
                        ProtocolResultView::KeyShare(
                            KeyShareView {
                                owner: r.parties.me,
                                secret_share: made.0,
                                holders: r.parties.audience,
                                public_shares: made.1,
                            },
                        ),
                    ),
                }
            }
        },
    }
}

/// Whether `next` is a round that can follow `r`: the next step of the same
/// protocol for the same parties.
pub open spec fn spec_follows(r: RoundView, next: RoundView) -> bool {
    next.kind == r.kind && next.parties == r.parties && next.index == r.index + 1
}

/// Whether `id` is a party this round expects a payload from: this party
/// is in the audience, and `id` is a sender other than this party.
pub open spec fn spec_is_expected(r: RoundView, id: u64) -> bool {
    r.parties.audience.contains(r.parties.me) && r.parties.senders.contains(id) && id
        != r.parties.me
}

/// Whether `kind` is key generation.
fn is_key_init(kind: ProtocolKind) -> (yes: bool)
    ensures
        yes == (kind is KeyInit),
{
    match kind {
        ProtocolKind::KeyInit => true,
        _ => false,
    }
}

/// A copy of a table of scalars.
pub fn copy_rows(rows: &Vec<Vec<u64>>) -> (copy: Vec<Vec<u64>>)
    ensures
        spec_rows_view(copy@) == spec_rows_view(rows@),
{
    let mut copy: Vec<Vec<u64>> = Vec::new();
    let mut p: usize = 0;
    while p < rows.len()
        invariant
            p <= rows.len(),
            copy@.len() == p,
            forall|k: int| 0 <= k < p ==> (#[trigger] copy@[k])@ == rows@[k]@,
        decreases rows.len() - p,
    {
        copy.push(copy_scalars(&rows[p]));
        p = p + 1;
    }
    proof {
        assert(spec_rows_view(copy@) =~= spec_rows_view(rows@));
    }
    copy
}

impl Round {
    #[verifier::type_invariant]
    spec fn well_formed(self) -> bool {
        spec_round_wf(self@)
    }

    /// Whether the round is well formed. Every round is.
    pub open spec fn wf(&self) -> bool {
        spec_round_wf(self@)
    }

    /// Recalls that the round is well formed.
    pub fn recall(&self)
        ensures
            self.wf(),
    {
        proof {
            use_type_invariant(self);
        }
    }

    /// The first round of key generation or of auxiliary generation for the
    /// given parties, with this party's secret and, for auxiliary
    /// generation, the proof about it.
    pub(crate) fn commit(kind: ProtocolKind, parties: Parties, secret: u64, argument: Option<
        FacProof,
    >) -> (round: Round)
        requires
            parties@.senders == parties@.audience,
            kind is KeyInit || kind is AuxGen,
            kind is AuxGen <==> argument is Some,
        ensures
            round.wf(),
            round@ == (RoundView {
                kind,
                index: 1,
                parties: parties@,
                state: RoundStateView::CommitReveal {
                    secret,
                    commitments: Seq::empty(),
                    argument,
                },
            }),
    {
        parties.recall();
        Round {
            kind,
            index: 1,
            parties,
            state: RoundState::CommitReveal { secret, commitments: Vec::new(), argument },
        }
    }

    /// The first round of signing for the given parties, with this party's
    /// share, the public shares of all holders, the digest of the message
    /// and this party's nonce.
    pub(crate) fn nonce(
        parties: Parties,
        share_secret: u64,
        public_shares: Vec<u64>,
        message_digest: u64,
        nonce: u64,
    ) -> (round: Round)
        requires
            parties@.senders == parties@.audience,
            public_shares@.len() == parties@.senders.len(),
        ensures
            round.wf(),
            round@ == (RoundView {
                kind: ProtocolKind::InteractiveSigning,
                index: 1,
                parties: parties@,
                state: RoundStateView::Signing {
                    share_secret,
                    public_shares: public_shares@,
                    message_digest,
                    nonce,
                    commitments: Seq::empty(),
                    nonce_points: Seq::empty(),
                },
            }),
    {
        parties.recall();
        Round {
            kind: ProtocolKind::InteractiveSigning,
            index: 1,
            parties,
            state: RoundState::Signing {
                share_secret,
                public_shares,
                message_digest,
                nonce,
                commitments: Vec::new(),
                nonce_points: Vec::new(),
            },
        }
    }

    /// The first round of key refresh or key resharing for the given
    /// parties, with the public shares of the old holders and the parts
    /// this party hands out, if it is an old holder.
    pub(crate) fn announce(
        kind: ProtocolKind,
        parties: Parties,
        old_public_shares: Vec<u64>,
        subshares: Vec<u64>,
    ) -> (round: Round)
        requires
            kind is KeyRefresh || kind is KeyResharing,
            kind is KeyRefresh ==> parties@.senders == parties@.audience,
            old_public_shares@.len() == parties@.senders.len(),
            parties@.senders.contains(parties@.me) ==> subshares@.len() == parties@.audience.len(),
        ensures
            round.wf(),
            round@ == (RoundView {
                kind,
                index: 1,
                parties: parties@,
                state: RoundStateView::Redistribution {
                    old_public_shares: old_public_shares@,
                    subshares: subshares@,
                    announced: Seq::empty(),
                },
            }),
    {
        parties.recall();
        proof {
            assert(spec_rows_view(Seq::<Vec<u64>>::empty()) =~= Seq::<Seq<u64>>::empty());
        }
        Round {
            kind,
            index: 1,
            parties,
            state: RoundState::Redistribution {
                old_public_shares,
                subshares,
                announced: Vec::new(),
            },
        }
    }

    /// The protocol this round belongs to.
    pub fn kind(&self) -> (kind: ProtocolKind)
        ensures
            kind == self@.kind,
    {
        self.kind
    }

    /// The number of this round, counted from one.
    pub fn index(&self) -> (index: u32)
        ensures
            index == self@.index,
    {
        self.index
    }

    /// The parties of the run.
    pub fn parties(&self) -> (parties: &Parties)
        ensures
            parties@ == self@.parties,
    {
        &self.parties
    }

    /// The category of this round's payloads.
    pub fn category(&self) -> (kind_of_payload: PayloadKind)
        ensures
            kind_of_payload == spec_category(self@.kind, self@.index),
    {
        category(self.kind, self.index)
    }

    /// Whether this round's payload is a broadcast, which must pass
    /// consensus before the round can be left.
    pub fn requires_consensus(&self) -> (required: bool)
        ensures
            required == (spec_category(self@.kind, self@.index) is Broadcast),
    {
        match category(self.kind, self.index) {
            PayloadKind::Broadcast => true,
            _ => false,
        }
    }

    /// The parties this round expects a payload from, in canonical order.
    pub fn expected_senders(&self) -> (expected: Vec<u64>)
        ensures
            is_canonical(expected@),
            forall|id: u64| expected@.contains(id) <==> spec_is_expected(self@, id),
    {
        if self.parties.listens() {
            self.parties.senders().without(self.parties.me())
        } else {
            let expected: Vec<u64> = Vec::new();
            expected
        }
    }

    /// The payload this party sends to the recipient at position
    /// `recipient` of the audience.
    pub fn payload(&self, recipient: usize) -> (payload: Vec<u8>)
        ensures
            payload@ == spec_payload(self@, recipient as int),
    {
        self.recall();
        match &self.state {
            RoundState::CommitReveal { secret, commitments, argument } => {
                if self.index == 1 && is_key_init(self.kind) {
                    commit_payload(*secret)
                } else {
                    reveal_payload(*secret, argument)
                }
            },
            RoundState::Signing {
                share_secret,
                public_shares,
                message_digest,
                nonce,
                commitments,
                nonce_points,
            } => {
                if self.index == 1 {
                    commit_payload(*nonce)
                } else if self.index == 2 {
                    reveal_payload(*nonce, &None)
                } else {
                    partial_payload(
                        *nonce,
                        *share_secret,
                        nonce_points,
                        public_shares,
                        *message_digest,
                    )
                }
            },
            RoundState::Redistribution { old_public_shares, subshares, announced } => {
                if self.index == 1 {
                    announce_payload(subshares)
                } else if recipient < subshares.len() {
                    share_payload(subshares, recipient)
                } else {
                    Vec::new()
                }
            },
        }
    }

    /// Finalizes the round on what was received, slot by slot in the
    /// canonical order of the senders. A slot that is missing is this
    /// party's own problem; a payload that does not decode or that breaks
    /// the protocol's rules is a provable fault of its sender; the first
    /// such finding, in canonical order, is the outcome. Otherwise the
    /// outcome is the next round or the protocol's result.
    pub fn finalize(&self, received: &Vec<Option<Vec<u8>>>) -> (outcome: FinalizeOutcome)
        ensures
            outcome@ == spec_finalize(self@, spec_slots(received@)),
            spec_outcome_wf(outcome@),
            outcome@ matches FinalizeOutcomeView::AnotherRound(next) ==> spec_follows(self@, next),
    {
        self.recall();
        match &self.state {
            RoundState::CommitReveal { secret, commitments, argument } => {
                if self.index == 1 && is_key_init(self.kind) {
                    match finalize_commit(&self.parties, *secret, received) {
                        Err(e) => FinalizeOutcome::Error(e),
                        Ok(gathered) => FinalizeOutcome::AnotherRound(
                            Round {
                                kind: self.kind,
                                index: 2,
                                parties: self.parties.duplicate(),
                                state: RoundState::CommitReveal {
                                    secret: *secret,
                                    commitments: gathered,
                                    argument: *argument,
                                },
                            },
                        ),
                    }
                } else {
                    let with_proof = match self.kind {
                        ProtocolKind::AuxGen => true,
                        _ => false,
                    };
                    match finalize_reveal(
                        &self.parties,
                        *secret,
                        !with_proof,
                        commitments,
                        with_proof,
                        received,
                    ) {
                        Err(e) => FinalizeOutcome::Error(e),
                        Ok(revealed) => {
                            let me = self.parties.me();
                            let holders = self.parties.senders().duplicate();
                            proof {
                                let at = spec_position(self@.parties.senders, me);
                                assert(self@.parties.senders.contains(me));
                                assert(revealed@[at] == crate::tools::arithmetic::spec_point(
                                    *secret,
                                ));
                            }
                            if with_proof {
                                match AuxInfo::new(me, *secret, holders, revealed) {
                                    Ok(aux) => FinalizeOutcome::Result(
                                        ProtocolResult::AuxInfo(aux),
                                    ),
                                    Err(e) => {
                                        assert(false);
                                        FinalizeOutcome::Error(Error::Local(e))
                                    },
                                }
                            } else {
                                match KeyShare::new(me, *secret, holders, revealed) {
                                    Ok(share) => FinalizeOutcome::Result(
                                        ProtocolResult::KeyShare(share),
                                    ),
                                    Err(e) => {
                                        assert(false);
                                        FinalizeOutcome::Error(Error::Local(e))
                                    },
                                }
                            }
                        },
                    }
                }
            },
            RoundState::Signing {
                share_secret,
                public_shares,
                message_digest,
                nonce,
                commitments,
                nonce_points,
            } => {
                if self.index == 1 {
                    match finalize_commit(&self.parties, *nonce, received) {
                        Err(e) => FinalizeOutcome::Error(e),
                        Ok(gathered) => FinalizeOutcome::AnotherRound(
                            Round {
                                kind: self.kind,
                                index: 2,
                                parties: self.parties.duplicate(),
                                state: RoundState::Signing {
                                    share_secret: *share_secret,
                                    public_shares: copy_scalars(public_shares),
                                    message_digest: *message_digest,
                                    nonce: *nonce,
                                    commitments: gathered,
                                    nonce_points: copy_scalars(nonce_points),
                                },
                            },
                        ),
                    }
                } else if self.index == 2 {
                    match finalize_reveal(
                        &self.parties,
                        *nonce,
                        true,
                        commitments,
                        false,
                        received,
                    ) {
                        Err(e) => FinalizeOutcome::Error(e),
                        Ok(revealed) => FinalizeOutcome::AnotherRound(
                            Round {
                                kind: self.kind,
                                index: 3,
                                parties: self.parties.duplicate(),
                                state: RoundState::Signing {
                                    share_secret: *share_secret,
                                    public_shares: copy_scalars(public_shares),
                                    message_digest: *message_digest,
                                    nonce: *nonce,
                                    commitments: copy_scalars(commitments),
                                    nonce_points: revealed,
                                },
                            },
                        ),
                    }
                } else {
                    match finalize_partial(
                        &self.parties,
                        *nonce,
                        *share_secret,
                        nonce_points,
                        public_shares,
                        *message_digest,
                        received,
                    ) {
                        Err(e) => FinalizeOutcome::Error(e),
                        Ok(signature) => FinalizeOutcome::Result(
                            ProtocolResult::Signature(signature),
                        ),
                    }
                }
            },
            RoundState::Redistribution { old_public_shares, subshares, announced } => {
                let listens = self.parties.listens();
                if self.index == 1 {
                    if !listens {
                        let next = Round {
                            kind: self.kind,
                            index: 2,
                            parties: self.parties.duplicate(),
                            state: RoundState::Redistribution {
                                old_public_shares: copy_scalars(old_public_shares),
                                subshares: copy_scalars(subshares),
                                announced: copy_rows(announced),
                            },
                        };
                        FinalizeOutcome::AnotherRound(next)
                    } else {
                        match finalize_announce(
                            &self.parties,
                            old_public_shares,
                            subshares,
                            received,
                        ) {
                            Err(e) => FinalizeOutcome::Error(e),
                            Ok(gathered) => {
                                proof {
                                    let rows = spec_rows_view(gathered@);
                                    assert forall|p: int| 0 <= p < rows.len() implies (
                                    #[trigger] rows[p]).len() == self@.parties.audience.len() by {
                                        assert(rows[p] == gathered@[p]@);
                                    }
                                    crate::protocols::parties::lemma_no_slot_fault(
                                        self@.parties,
                                        self@.parties.audience.len() as int,
                                        spec_slots(received@),
                                    );
                                }
                                FinalizeOutcome::AnotherRound(
                                    Round {
                                        kind: self.kind,
                                        index: 2,
                                        parties: self.parties.duplicate(),
                                        state: RoundState::Redistribution {
                                            old_public_shares: copy_scalars(old_public_shares),
                                            subshares: copy_scalars(subshares),
                                            announced: gathered,
                                        },
                                    },
                                )
                            },
                        }
                    }
                } else {
                    if !listens {
                        FinalizeOutcome::Result(ProtocolResult::NoShare)
                    } else {
                        proof {
                            let rows = spec_rows_view(announced@);
                            assert forall|p: int| 0 <= p < announced@.len() implies (
                            #[trigger] announced@[p])@.len() == self@.parties.audience.len() by {
                                assert(rows[p] == announced@[p]@);
                            }
                        }
                        match finalize_distribute(&self.parties, subshares, announced, received) {
                            Err(e) => FinalizeOutcome::Error(e),
                            Ok((secret, shares)) => {
                                let me = self.parties.me();
                                let holders = self.parties.audience().duplicate();
                                proof {
                                    lemma_new_share_is_consistent(
                                        self@.parties,
                                        subshares@,
                                        spec_rows_view(announced@),
                                        spec_slots(received@),
                                    );
                                }
                                match KeyShare::new(me, secret, holders, shares) {
                                    Ok(share) => FinalizeOutcome::Result(
                                        ProtocolResult::KeyShare(share),
                                    ),
                                    Err(e) => {
                                        assert(false);
                                        FinalizeOutcome::Error(Error::Local(e))
                                    },
                                }
                            },
                        }
                    }
                }
            },
        }
    }

    /// A copy of the round.
    pub fn duplicate(&self) -> (copy: Round)
        ensures
            copy@ == self@,
    {
        self.recall();
        let state = match &self.state {
            RoundState::CommitReveal { secret, commitments, argument } => {
                RoundState::CommitReveal {
                    secret: *secret,
                    commitments: copy_scalars(commitments),
                    argument: *argument,
                }
            },
            RoundState::Signing {
                share_secret,
                public_shares,
                message_digest,
                nonce,
                commitments,
                nonce_points,
            } => {
                RoundState::Signing {
                    share_secret: *share_secret,
                    public_shares: copy_scalars(public_shares),
                    message_digest: *message_digest,
                    nonce: *nonce,
                    commitments: copy_scalars(commitments),
                    nonce_points: copy_scalars(nonce_points),
                }
            },
            RoundState::Redistribution { old_public_shares, subshares, announced } => {
                RoundState::Redistribution {
                    old_public_shares: copy_scalars(old_public_shares),
                    subshares: copy_scalars(subshares),
                    announced: copy_rows(announced),
                }
            },
        };
        Round { kind: self.kind, index: self.index, parties: self.parties.duplicate(), state }
    }
}

} // verus!
