//! Auxiliary generation: every party creates an auxiliary secret and
//! publishes its public counterpart with a proof that it is well formed.

use vstd::prelude::*;
use crate::participants::ParticipantSet;
use crate::protocols::commit_reveal::single;
use crate::protocols::parties::{Parties, PartiesView};
use crate::protocols::round::{ProtocolKind, Round, RoundStateView, RoundView};
use crate::sessions::error::LocalError;
use crate::sigma::fac::FacProof;
use crate::tools::arithmetic::public_point;
use crate::tools::codec::encode_scalars;
use crate::tools::random::Randomness;

verus! {

/// The entry point of auxiliary generation: the set of parties.
#[derive(Debug)]
pub struct AuxGen {
    participants: ParticipantSet,
}

impl View for AuxGen {
    type V = Seq<u64>;

    closed spec fn view(&self) -> Seq<u64> {
        self.participants@
    }
}

/// The first round of auxiliary generation for the party `me` with the
/// auxiliary secret `secret`.
pub open spec fn spec_aux_gen_round(participants: Seq<u64>, me: u64, secret: u64) -> RoundView {
    RoundView {
        kind: ProtocolKind::AuxGen,
        index: 1,
        parties: PartiesView { me, senders: participants, audience: participants },
        state: RoundStateView::CommitReveal {
            secret,
            commitments: Seq::empty(),
            argument: Some(FacProof {  }),
        },
    }
}

/// What starting auxiliary generation leads to: the party must be a
/// participant and needs one scalar of randomness, which becomes its
/// auxiliary secret.
pub open spec fn spec_aux_gen_start(participants: Seq<u64>, me: u64, randomness: Seq<u64>) -> Result<
    RoundView,
    LocalError,
> {
    if !participants.contains(me) {
        Err(LocalError::NotAParticipant)
    } else if randomness.len() < 1 {
        Err(LocalError::RandomnessUnavailable)
    } else {
        Ok(spec_aux_gen_round(participants, me, randomness[0]))
    }
}

/// Why the party `me` cannot take part, if it cannot: it must be one of the
/// participants.
pub open spec fn spec_aux_gen_admission(participants: Seq<u64>, me: u64) -> Option<LocalError> {
    if !participants.contains(me) {
        Some(LocalError::NotAParticipant)
    } else {
        None
    }
}

impl AuxGen {
    /// Auxiliary generation among `participants`. Fails if there are fewer
    /// than two.
    pub fn new(participants: ParticipantSet) -> (r: Result<AuxGen, LocalError>)
        ensures
            match r {
                Ok(entry) => entry@ == participants@ && participants@.len() >= 2,
                Err(e) => e == LocalError::TooFewParticipants && participants@.len() < 2,
            },
    {
        if participants.len() < 2 {
            Err(LocalError::TooFewParticipants)
        } else {
            Ok(AuxGen { participants })
        }
    }

    /// The participants.
    pub fn participants(&self) -> (participants: &ParticipantSet)
        ensures
            participants@ == self@,
    {
        &self.participants
    }

    /// Decides whether the party `me` can take part.
    pub fn admission(&self, me: u64) -> (rejection: Option<LocalError>)
        ensures
            rejection == spec_aux_gen_admission(self@, me),
    {
        if self.participants.contains(me) {
            None
        } else {
            Some(LocalError::NotAParticipant)
        }
    }

    /// The first round for the party `me`. Consumes one scalar of
    /// randomness on success and none on failure. The proof about the
    /// party's public value is generated here, from the same randomness.
    pub fn first_round(&self, me: u64, randomness: &mut Randomness) -> (r: Result<Round, LocalError>)
        ensures
            match r {
                Ok(round) => round.wf() && spec_aux_gen_start(self@, me, old(randomness)@) == Ok::<
                    RoundView,
                    LocalError,
                >(round@) && final(randomness)@ == old(randomness)@.skip(1),
                Err(e) => spec_aux_gen_start(self@, me, old(randomness)@) == Err::<
                    RoundView,
                    LocalError,
                >(e) && final(randomness)@ == old(randomness)@,
            },
    {
        let parties = match Parties::new(
            me,
            self.participants.duplicate(),
            self.participants.duplicate(),
        ) {
            Ok(parties) => parties,
            Err(e) => {
                return Err(e);
            },
        };
        let secret = match randomness.take() {
            Ok(secret) => secret,
            Err(e) => {
                return Err(e);
            },
        };
        let aux = encode_scalars(&single(public_point(secret)));
        let argument = FacProof::random(randomness, secret, &aux);
        Ok(Round::commit(ProtocolKind::AuxGen, parties, secret, Some(argument)))
    }
}

} // verus!
