//! Key resharing: the holders of a key hand it to a new set of holders.
//!
//! A party takes part as an old holder, as a new holder, or as both. An old
//! holder brings its key share. A new holder brings what it was told about
//! the old key: who holds it and with which public shares.

use vstd::prelude::*;
use crate::participants::{is_canonical, ParticipantSet};
use crate::protocols::parties::{copy_scalars, Parties, PartiesView};
use crate::protocols::redistribution::{lemma_split_adds_up, spec_split, split};
use crate::protocols::results::{spec_key_share_wf, KeyShare, KeyShareView};
use crate::protocols::round::{ProtocolKind, Round, RoundStateView, RoundView};
use crate::sessions::error::LocalError;
use crate::tools::random::Randomness;

verus! {

/// What an old holder brings: its share of the key.
#[derive(Debug)]
pub struct OldHolder {
    pub key_share: KeyShare,
}

/// What a new holder brings: the old holders of the key and their public
/// shares, by position.
#[derive(Debug)]
pub struct NewHolder {
    pub old_holders: ParticipantSet,
    pub old_public_shares: Vec<u64>,
}

/// The mathematical content of [`NewHolder`].
pub struct NewHolderView {
    pub old_holders: Seq<u64>,
    pub old_public_shares: Seq<u64>,
}

impl View for NewHolder {
    type V = NewHolderView;

    open spec fn view(&self) -> NewHolderView {
        NewHolderView {
            old_holders: self.old_holders@,
            old_public_shares: self.old_public_shares@,
        }
    }
}

/// The entry point of key resharing.
#[derive(Debug)]
pub struct KeyResharing {
    old_holder: Option<OldHolder>,
    new_holder: Option<NewHolder>,
    new_holders: ParticipantSet,
}

/// The mathematical content of [`KeyResharing`].
pub struct KeyResharingView {
    pub old_holder: Option<KeyShareView>,
    pub new_holder: Option<NewHolderView>,
    pub new_holders: Seq<u64>,
}

impl View for KeyResharing {
    type V = KeyResharingView;

    closed spec fn view(&self) -> KeyResharingView {
        KeyResharingView {
            old_holder: match self.old_holder {
                Some(old) => Some(old.key_share@),
                None => None,
            },
            new_holder: match self.new_holder {
                Some(new) => Some(new@),
                None => None,
            },
            new_holders: self.new_holders@,
        }
    }
}

/// Why the data of a resharing cannot be used, if it cannot: there must be
/// at least two new holders; the party must take part in some role; what a
/// new holder was told must list one public share per old holder; and a
/// party in both roles must have been told what its own key share says.
pub open spec fn spec_resharing_rejection(v: KeyResharingView) -> Option<LocalError> {
    if v.new_holders.len() < 2 {
        Some(LocalError::TooFewParticipants)
    } else if v.old_holder is None && v.new_holder is None {
        Some(LocalError::InconsistentAssociatedData)
    } else if v.new_holder is Some && v.new_holder->0.old_public_shares.len()
        != v.new_holder->0.old_holders.len() {
        Some(LocalError::InconsistentAssociatedData)
    } else if v.old_holder is Some && v.new_holder is Some && (v.old_holder->0.holders
        != v.new_holder->0.old_holders || v.old_holder->0.public_shares
        != v.new_holder->0.old_public_shares) {
        Some(LocalError::InconsistentAssociatedData)
    } else {
        None
    }
}

/// Whether the data of a resharing is consistent.
pub open spec fn spec_resharing_wf(v: KeyResharingView) -> bool {
    &&& spec_resharing_rejection(v) is None
    &&& is_canonical(v.new_holders)
    &&& v.old_holder matches Some(share) ==> spec_key_share_wf(share)
    &&& v.new_holder matches Some(told) ==> is_canonical(told.old_holders)
}

/// The old holders of the key.
pub open spec fn spec_old_holders(v: KeyResharingView) -> Seq<u64> {
    match v.old_holder {
        Some(share) => share.holders,
        None => v.new_holder->0.old_holders,
    }
}

/// The public shares of the old holders.
pub open spec fn spec_old_public_shares(v: KeyResharingView) -> Seq<u64> {
    match v.old_holder {
        Some(share) => share.public_shares,
        None => v.new_holder->0.old_public_shares,
    }
}

/// The number of scalars of randomness a party needs: an old holder one per
/// new holder but the last, a party that only receives none.
pub open spec fn spec_resharing_randomness(v: KeyResharingView) -> nat {
    if v.old_holder is Some {
        (v.new_holders.len() - 1) as nat
    } else {
        0
    }
}

/// The first round of key resharing, with the parts an old holder splits
/// its share into.
pub open spec fn spec_resharing_round(v: KeyResharingView, me: u64, drawn: Seq<u64>) -> RoundView {
    RoundView {
        kind: ProtocolKind::KeyResharing,
        index: 1,
        parties: PartiesView { me, senders: spec_old_holders(v), audience: v.new_holders },
        state: RoundStateView::Redistribution {
            old_public_shares: spec_old_public_shares(v),
            subshares: match v.old_holder {
                Some(share) => spec_split(share.secret_share, drawn),
                None => Seq::empty(),
            },
            announced: Seq::empty(),
        },
    }
}

/// Why the party `me` cannot take part in a resharing, if it cannot. It must
/// be an old or a new holder. It must be an old holder exactly if it brings
/// a key share, which must be its own, and a new holder exactly if it
/// brings what new holders are told.
pub open spec fn spec_resharing_admission(v: KeyResharingView, me: u64) -> Option<LocalError> {
    let old = spec_old_holders(v);
    if !old.contains(me) && !v.new_holders.contains(me) {
        Some(LocalError::NotAParticipant)
    } else if old.contains(me) != (v.old_holder is Some && v.old_holder->0.owner == me)
        || v.old_holder is Some && v.old_holder->0.owner != me {
        Some(LocalError::InconsistentAssociatedData)
    } else if v.new_holders.contains(me) != (v.new_holder is Some) {
        Some(LocalError::InconsistentAssociatedData)
    } else {
        None
    }
}

/// What starting a key resharing leads to. The party must be an old or a
/// new holder. It must be an old holder exactly if it brings a key share,
/// which must be its own, and a new holder exactly if it brings what new
/// holders are told. An old holder needs randomness to split its share.
pub open spec fn spec_resharing_start(v: KeyResharingView, me: u64, randomness: Seq<u64>) -> Result<
    RoundView,
    LocalError,
> {
    let old = spec_old_holders(v);
    if !old.contains(me) && !v.new_holders.contains(me) {
        Err(LocalError::NotAParticipant)
    } else if old.contains(me) != (v.old_holder is Some && v.old_holder->0.owner == me)
        || v.old_holder is Some && v.old_holder->0.owner != me {
        Err(LocalError::InconsistentAssociatedData)
    } else if v.new_holders.contains(me) != (v.new_holder is Some) {
        Err(LocalError::InconsistentAssociatedData)
    } else if randomness.len() < spec_resharing_randomness(v) {
        Err(LocalError::RandomnessUnavailable)
    } else {
        Ok(spec_resharing_round(v, me, randomness.take(spec_resharing_randomness(v) as int)))
    }
}

/// Whether two lists of scalars are equal.
pub fn same_scalars(a: &Vec<u64>, b: &Vec<u64>) -> (same: bool)
    ensures
        same == (a@ == b@),
{
    if a.len() != b.len() {
        return false;
    }
    let mut i: usize = 0;
    while i < a.len()
        invariant
            i <= a.len(),
            a@.len() == b@.len(),
            forall|k: int| 0 <= k < i ==> a@[k] == b@[k],
        decreases a.len() - i,
    {
        if a[i] != b[i] {
            return false;
        }
        i = i + 1;
    }
    proof {
        assert(a@ =~= b@);
    }
    true
}

impl KeyResharing {
    #[verifier::type_invariant]
    spec fn consistent(self) -> bool {
        spec_resharing_wf(self@)
    }

    /// Whether the data is consistent. Every value is.
    pub open spec fn wf(&self) -> bool {
        spec_resharing_wf(self@)
    }

    /// Recalls that the data is consistent.
    pub fn recall(&self)
        ensures
            self.wf(),
    {
        proof {
            use_type_invariant(self);
        }
    }

    /// Resharing of a key to `new_holders`, for a party that brings the
    /// data of an old holder, of a new holder, or of both.
    pub fn new(
        old_holder: Option<OldHolder>,
        new_holder: Option<NewHolder>,
        new_holders: ParticipantSet,
    ) -> (r: Result<KeyResharing, LocalError>)
        ensures
            match r {
                Ok(entry) => entry.wf() && entry@ == (KeyResharingView {
                    old_holder: match old_holder {
                        Some(old) => Some(old.key_share@),
                        None => None,
                    },
                    new_holder: match new_holder {
                        Some(new) => Some(new@),
                        None => None,
                    },
                    new_holders: new_holders@,
                }),
                Err(e) => spec_resharing_rejection(
                    KeyResharingView {
                        old_holder: match old_holder {
                            Some(old) => Some(old.key_share@),
                            None => None,
                        },
                        new_holder: match new_holder {
                            Some(new) => Some(new@),
                            None => None,
                        },
                        new_holders: new_holders@,
                    },
                ) == Some(e),
            },
    {
        if new_holders.len() < 2 {
            return Err(LocalError::TooFewParticipants);
        }
        if old_holder.is_none() && new_holder.is_none() {
            return Err(LocalError::InconsistentAssociatedData);
        }
        match &old_holder {
            Some(old) => {
                old.key_share.recall();
            },
            None => {},
        }
        match &new_holder {
            Some(told) => {
                if told.old_public_shares.len() != told.old_holders.len() {
                    return Err(LocalError::InconsistentAssociatedData);
                }
                match &old_holder {
                    Some(old) => {
                        if !old.key_share.holders().same_as(&told.old_holders) || !same_scalars(
                            old.key_share.public_shares(),
                            &told.old_public_shares,
                        ) {
                            return Err(LocalError::InconsistentAssociatedData);
                        }
                    },
                    None => {},
                }
                told.old_holders.recall_order();
            },
            None => {},
        }
        new_holders.recall_order();
        Ok(KeyResharing { old_holder, new_holder, new_holders })
    }

    /// The number of scalars of randomness the party needs to start.
    pub fn randomness_needed(&self) -> (count: usize)
        ensures
            count == spec_resharing_randomness(self@),
    {
        self.recall();
        if self.old_holder.is_some() {
            self.new_holders.len() - 1
        } else {
            0
        }
    }

    /// Decides whether the party `me` can take part.
    pub fn admission(&self, me: u64) -> (rejection: Option<LocalError>)
        ensures
            rejection == spec_resharing_admission(self@, me),
    {
        self.recall();
        let is_old = match &self.old_holder {
            Some(old) => old.key_share.holders().contains(me),
            None => match &self.new_holder {
                Some(told) => told.old_holders.contains(me),
                None => false,
            },
        };
        let is_new = self.new_holders.contains(me);
        let brings_share = match &self.old_holder {
            Some(old) => old.key_share.owner() == me,
            None => false,
        };
        if !is_old && !is_new {
            Some(LocalError::NotAParticipant)
        } else if is_old != brings_share || (self.old_holder.is_some() && !brings_share) {
            Some(LocalError::InconsistentAssociatedData)
        } else if is_new != self.new_holder.is_some() {
            Some(LocalError::InconsistentAssociatedData)
        } else {
            None
        }
    }

    /// The first round for the party `me`. Consumes the randomness the
    /// party needs on success and none on failure.
    pub fn first_round(&self, me: u64, randomness: &mut Randomness) -> (r: Result<Round, LocalError>)
        ensures
            match r {
                Ok(round) => round.wf() && spec_resharing_start(self@, me, old(randomness)@) == Ok::<
                    RoundView,
                    LocalError,
                >(round@) && final(randomness)@ == old(randomness)@.skip(
                    spec_resharing_randomness(self@) as int,
                ),
                Err(e) => spec_resharing_start(self@, me, old(randomness)@) == Err::<
                    RoundView,
                    LocalError,
                >(e) && final(randomness)@ == old(randomness)@,
            },
    {
        self.recall();
        let (old_holders, old_public_shares) = match &self.old_holder {
            Some(old) => (
                old.key_share.holders().duplicate(),
                copy_scalars(old.key_share.public_shares()),
            ),
            None => match &self.new_holder {
                Some(told) => (told.old_holders.duplicate(), copy_scalars(&told.old_public_shares)),
                None => {
                    assert(false);
                    return Err(LocalError::InconsistentAssociatedData);
                },
            },
        };
        let is_old = old_holders.contains(me);
        let is_new = self.new_holders.contains(me);
        let brings_share = match &self.old_holder {
            Some(old) => old.key_share.owner() == me,
            None => false,
        };
        let parties = match Parties::new(me, old_holders, self.new_holders.duplicate()) {
            Ok(parties) => parties,
            Err(e) => {
                return Err(e);
            },
        };
        if is_old != brings_share || (self.old_holder.is_some() && !brings_share) {
            return Err(LocalError::InconsistentAssociatedData);
        }
        if is_new != self.new_holder.is_some() {
            return Err(LocalError::InconsistentAssociatedData);
        }
        let subshares = match &self.old_holder {
            Some(old) => {
                let drawn = match randomness.take_many(self.new_holders.len() - 1) {
                    Ok(drawn) => drawn,
                    Err(e) => {
                        return Err(e);
                    },
                };
                proof {
                    lemma_split_adds_up(old.key_share@.secret_share, drawn@);
                }
                split(old.key_share.secret_share(), drawn)
            },
            None => {
                proof {
                    assert(old(randomness)@.skip(0) =~= old(randomness)@);
                    assert(old(randomness)@.take(0) =~= Seq::<u64>::empty());
                }
                Vec::new()
            },
        };
        Ok(Round::announce(ProtocolKind::KeyResharing, parties, old_public_shares, subshares))
    }
}

} // verus!
