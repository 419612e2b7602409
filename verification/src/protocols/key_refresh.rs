//! Key refresh: the holders of a key replace their shares by fresh ones of
//! the same key.

use vstd::prelude::*;
use crate::participants::ParticipantSet;
use crate::protocols::parties::{copy_scalars, Parties, PartiesView};
use crate::protocols::redistribution::{lemma_split_adds_up, spec_split, split};
use crate::protocols::results::{spec_key_share_wf, KeyShare, KeyShareView};
use crate::protocols::round::{ProtocolKind, Round, RoundStateView, RoundView};
use crate::sessions::error::LocalError;
use crate::tools::random::Randomness;

verus! {

/// The entry point of key refresh: the holder's current key share.
#[derive(Debug)]
pub struct KeyRefresh {
    key_share: KeyShare,
}

impl View for KeyRefresh {
    type V = KeyShareView;

    closed spec fn view(&self) -> KeyShareView {
        self.key_share@
    }
}

/// Why a key share cannot be refreshed among the given participants, if it
/// cannot: a key with fewer than two holders needs no protocol, and the
/// participants must be the holders of the key.
pub open spec fn spec_refresh_rejection(key_share: KeyShareView, participants: Seq<u64>) -> Option<
    LocalError,
> {
    if participants.len() < 2 {
        Some(LocalError::TooFewParticipants)
    } else if key_share.holders != participants {
        Some(LocalError::InconsistentAssociatedData)
    } else {
        None
    }
}

/// The first round of key refresh for the owner of the key share, who
/// splits its share into the drawn parts and one more.
pub open spec fn spec_refresh_round(key_share: KeyShareView, drawn: Seq<u64>) -> RoundView {
    RoundView {
        kind: ProtocolKind::KeyRefresh,
        index: 1,
        parties: PartiesView {
            me: key_share.owner,
            senders: key_share.holders,
            audience: key_share.holders,
        },
        state: RoundStateView::Redistribution {
            old_public_shares: key_share.public_shares,
            subshares: spec_split(key_share.secret_share, drawn),
            announced: Seq::empty(),
        },
    }
}

/// What starting a key refresh leads to: the party must be the owner of
/// the key share, and needs one scalar of randomness per other holder.
pub open spec fn spec_refresh_start(key_share: KeyShareView, me: u64, randomness: Seq<u64>) -> Result<
    RoundView,
    LocalError,
> {
    if !key_share.holders.contains(me) {
        Err(LocalError::NotAParticipant)
    } else if me != key_share.owner {
        Err(LocalError::InconsistentAssociatedData)
    } else if randomness.len() < key_share.holders.len() - 1 {
        Err(LocalError::RandomnessUnavailable)
    } else {
        Ok(spec_refresh_round(key_share, randomness.take(key_share.holders.len() - 1)))
    }
}

/// Why the party `me` cannot refresh the key share, if it cannot: it must
/// be a holder of the key, and the key share must be its own.
pub open spec fn spec_refresh_admission(key_share: KeyShareView, me: u64) -> Option<LocalError> {
    if !key_share.holders.contains(me) {
        Some(LocalError::NotAParticipant)
    } else if me != key_share.owner {
        Some(LocalError::InconsistentAssociatedData)
    } else {
        None
    }
}

impl KeyRefresh {
    #[verifier::type_invariant]
    spec fn consistent(self) -> bool {
        spec_key_share_wf(self@) && self@.holders.len() >= 2
    }

    /// Whether the data is consistent. Every value is.
    pub open spec fn wf(&self) -> bool {
        spec_key_share_wf(self@) && self@.holders.len() >= 2
    }

    /// Recalls that the data is consistent.
    pub fn recall(&self)
        ensures
            self.wf(),
    {
        proof {
            use_type_invariant(self);
        }
    }

    /// Refresh of `key_share` among `participants`. Fails if there are
    /// fewer than two participants or if they are not the holders of the
    /// key.
    pub fn new(key_share: KeyShare, participants: &ParticipantSet) -> (r: Result<
        KeyRefresh,
        LocalError,
    >)
        ensures
            match r {
                Ok(entry) => entry.wf() && entry@ == key_share@ && spec_refresh_rejection(
                    key_share@,
                    participants@,
                ) is None,
                Err(e) => spec_refresh_rejection(key_share@, participants@) == Some(e),
            },
    {
        key_share.recall();
        if participants.len() < 2 {
            return Err(LocalError::TooFewParticipants);
        }
        if !key_share.holders().same_as(participants) {
            return Err(LocalError::InconsistentAssociatedData);
        }
        Ok(KeyRefresh { key_share })
    }

    /// The key share to refresh.
    pub fn key_share(&self) -> (key_share: &KeyShare)
        ensures
            key_share@ == self@,
    {
        &self.key_share
    }

    /// Decides whether the party `me` can take part.
    pub fn admission(&self, me: u64) -> (rejection: Option<LocalError>)
        ensures
            rejection == spec_refresh_admission(self@, me),
    {
        if !self.key_share.holders().contains(me) {
            Some(LocalError::NotAParticipant)
        } else if me != self.key_share.owner() {
            Some(LocalError::InconsistentAssociatedData)
        } else {
            None
        }
    }

    /// The first round for the party `me`. Consumes one scalar of
    /// randomness per other holder on success and none on failure.
    pub fn first_round(&self, me: u64, randomness: &mut Randomness) -> (r: Result<Round, LocalError>)
        ensures
            match r {
                Ok(round) => round.wf() && spec_refresh_start(self@, me, old(randomness)@) == Ok::<
                    RoundView,
                    LocalError,
                >(round@) && final(randomness)@ == old(randomness)@.skip(self@.holders.len() - 1),
                Err(e) => spec_refresh_start(self@, me, old(randomness)@) == Err::<
                    RoundView,
                    LocalError,
                >(e) && final(randomness)@ == old(randomness)@,
            },
    {
        self.recall();
        let holders = self.key_share.holders();
        let parties = match Parties::new(me, holders.duplicate(), holders.duplicate()) {
            Ok(parties) => parties,
            Err(e) => {
                return Err(e);
            },
        };
        if me != self.key_share.owner() {
            return Err(LocalError::InconsistentAssociatedData);
        }
        let drawn = match randomness.take_many(holders.len() - 1) {
            Ok(drawn) => drawn,
            Err(e) => {
                return Err(e);
            },
        };
        proof {
            lemma_split_adds_up(self@.secret_share, drawn@);
        }
        let subshares = split(self.key_share.secret_share(), drawn);
        Ok(
            Round::announce(
                ProtocolKind::KeyRefresh,
                parties,
                copy_scalars(self.key_share.public_shares()),
                subshares,
            ),
        )
    }
}

} // verus!
