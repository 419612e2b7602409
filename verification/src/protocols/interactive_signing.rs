//! Interactive signing: the holders of a key sign a prehashed message.

use vstd::prelude::*;
use crate::protocols::parties::{copy_scalars, Parties, PartiesView};
use crate::protocols::results::{
    spec_aux_info_wf,
    spec_key_share_wf,
    AuxInfo,
    AuxInfoView,
    KeyShare,
    KeyShareView,
};
use crate::protocols::round::{ProtocolKind, Round, RoundStateView, RoundView};
use crate::sessions::error::LocalError;
use crate::tools::hashing::{digest, spec_digest};
use crate::tools::random::Randomness;

verus! {

/// A message that was hashed before it is signed.
pub type PrehashedMessage = Vec<u8>;

/// The entry point of signing: the message, and the signer's key share and
/// auxiliary data.
#[derive(Debug)]
pub struct InteractiveSigning {
    message: PrehashedMessage,
    key_share: KeyShare,
    aux_info: AuxInfo,
}

/// The mathematical content of [`InteractiveSigning`].
pub struct InteractiveSigningView {
    pub message: Seq<u8>,
    pub key_share: KeyShareView,
    pub aux_info: AuxInfoView,
}

impl View for InteractiveSigning {
    type V = InteractiveSigningView;

    closed spec fn view(&self) -> InteractiveSigningView {
        InteractiveSigningView {
            message: self.message@,
            key_share: self.key_share@,
            aux_info: self.aux_info@,
        }
    }
}

/// Why a key share and auxiliary data cannot be signed with, if they
/// cannot: a key with fewer than two holders needs no protocol, and the two
/// must belong to the same owner among the same holders.
pub open spec fn spec_signing_rejection(key_share: KeyShareView, aux_info: AuxInfoView) -> Option<
    LocalError,
> {
    if key_share.holders.len() < 2 {
        Some(LocalError::TooFewParticipants)
    } else if key_share.owner != aux_info.owner || key_share.holders != aux_info.holders {
        Some(LocalError::InconsistentAssociatedData)
    } else {
        None
    }
}

/// Whether the data of an entry point is consistent.
pub open spec fn spec_signing_wf(v: InteractiveSigningView) -> bool {
    &&& spec_key_share_wf(v.key_share)
    &&& spec_aux_info_wf(v.aux_info)
    &&& spec_signing_rejection(v.key_share, v.aux_info) is None
}

/// The first round of signing for the owner of the key share, with the
/// given nonce.
pub open spec fn spec_signing_round(v: InteractiveSigningView, nonce: u64) -> RoundView {
    RoundView {
        kind: ProtocolKind::InteractiveSigning,
        index: 1,
        parties: PartiesView {
            me: v.key_share.owner,
            senders: v.key_share.holders,
            audience: v.key_share.holders,
        },
        state: RoundStateView::Signing {
            share_secret: v.key_share.secret_share,
            public_shares: v.key_share.public_shares,
            message_digest: spec_digest(v.message),
            nonce,
            commitments: Seq::empty(),
            nonce_points: Seq::empty(),
        },
    }
}

/// What starting to sign leads to: the party must be the owner of the key
/// share, and needs one scalar of randomness, which becomes its nonce.
pub open spec fn spec_signing_start(v: InteractiveSigningView, me: u64, randomness: Seq<u64>) -> Result<
    RoundView,
    LocalError,
> {
    if !v.key_share.holders.contains(me) {
        Err(LocalError::NotAParticipant)
    } else if me != v.key_share.owner {
        Err(LocalError::InconsistentAssociatedData)
    } else if randomness.len() < 1 {
        Err(LocalError::RandomnessUnavailable)
    } else {
        Ok(spec_signing_round(v, randomness[0]))
    }
}

/// Why the party `me` cannot sign, if it cannot: it must be a holder of the
/// key, and the key share must be its own.
pub open spec fn spec_signing_admission(v: InteractiveSigningView, me: u64) -> Option<LocalError> {
    if !v.key_share.holders.contains(me) {
        Some(LocalError::NotAParticipant)
    } else if me != v.key_share.owner {
        Some(LocalError::InconsistentAssociatedData)
    } else {
        None
    }
}

impl InteractiveSigning {
    #[verifier::type_invariant]
    spec fn consistent(self) -> bool {
        spec_signing_wf(self@)
    }

    /// Whether the data is consistent. Every value is.
    pub open spec fn wf(&self) -> bool {
        spec_signing_wf(self@)
    }

    /// Recalls that the data is consistent.
    pub fn recall(&self)
        ensures
            self.wf(),
    {
        proof {
            use_type_invariant(self);
        }
    }

    /// Signing of `message` with the given key share and auxiliary data.
    /// Fails if the key has fewer than two holders, or if the key share and
    /// the auxiliary data belong to different owners or different sets of
    /// holders.
    pub fn new(message: PrehashedMessage, key_share: KeyShare, aux_info: AuxInfo) -> (r: Result<
        InteractiveSigning,
        LocalError,
    >)
        ensures
            match r {
                Ok(entry) => entry.wf() && entry@ == (InteractiveSigningView {
                    message: message@,
                    key_share: key_share@,
                    aux_info: aux_info@,
                }),
                Err(e) => spec_signing_rejection(key_share@, aux_info@) == Some(e),
            },
    {
        key_share.recall();
        aux_info.recall();
        if key_share.holders().len() < 2 {
            return Err(LocalError::TooFewParticipants);
        }
        if key_share.owner() != aux_info.owner() || !key_share.holders().same_as(
            aux_info.holders(),
        ) {
            return Err(LocalError::InconsistentAssociatedData);
        }
        Ok(InteractiveSigning { message, key_share, aux_info })
    }

    /// The key share that signs.
    pub fn key_share(&self) -> (key_share: &KeyShare)
        ensures
            key_share@ == self@.key_share,
    {
        &self.key_share
    }

    /// Decides whether the party `me` can take part.
    pub fn admission(&self, me: u64) -> (rejection: Option<LocalError>)
        ensures
            rejection == spec_signing_admission(self@, me),
    {
        if !self.key_share.holders().contains(me) {
            Some(LocalError::NotAParticipant)
        } else if me != self.key_share.owner() {
            Some(LocalError::InconsistentAssociatedData)
        } else {
            None
        }
    }

    /// The first round for the party `me`. Consumes one scalar of
    /// randomness on success and none on failure.
    pub fn first_round(&self, me: u64, randomness: &mut Randomness) -> (r: Result<Round, LocalError>)
        ensures
            match r {
                Ok(round) => round.wf() && spec_signing_start(self@, me, old(randomness)@) == Ok::<
                    RoundView,
                    LocalError,
                >(round@) && final(randomness)@ == old(randomness)@.skip(1),
                Err(e) => spec_signing_start(self@, me, old(randomness)@) == Err::<
                    RoundView,
                    LocalError,
                >(e) && final(randomness)@ == old(randomness)@,
            },
    {
        self.recall();
        let holders = self.key_share.holders();
        let parties = match Parties::new(me, holders.duplicate(), holders.duplicate()) {
            Ok(parties) => parties,
            Err(e) => {
                return Err(e);
            },
        };
        if me != self.key_share.owner() {
            return Err(LocalError::InconsistentAssociatedData);
        }
        let nonce = match randomness.take() {
            Ok(nonce) => nonce,
            Err(e) => {
                return Err(e);
            },
        };
        Ok(
            Round::nonce(
                parties,
                self.key_share.secret_share(),
                copy_scalars(self.key_share.public_shares()),
                digest(&self.message),
                nonce,
            ),
        )
    }
}

} // verus!
