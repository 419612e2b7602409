//! Entry points: how a run of each protocol starts.

use vstd::prelude::*;
use crate::protocols::aux_gen::{spec_aux_gen_admission, spec_aux_gen_start, AuxGen};
use crate::protocols::interactive_signing::{
    spec_signing_admission,
    spec_signing_start,
    spec_signing_wf,
    InteractiveSigning,
    InteractiveSigningView,
};
use crate::protocols::key_init::{spec_key_init_admission, spec_key_init_start, KeyInit};
use crate::protocols::key_refresh::{spec_refresh_admission, spec_refresh_start, KeyRefresh};
use crate::protocols::key_resharing::{
    spec_resharing_admission,
    spec_resharing_randomness,
    spec_resharing_start,
    spec_resharing_wf,
    KeyResharing,
    KeyResharingView,
};
use crate::protocols::results::{spec_key_share_wf, KeyShareView};
use crate::protocols::round::{ProtocolKind, Round, RoundView};
use crate::sessions::error::LocalError;
use crate::tools::random::Randomness;

verus! {

/// The entry point of a protocol, with the data the protocol starts from.
#[derive(Debug)]
pub enum EntryPoint {
    KeyInit(KeyInit),
    KeyRefresh(KeyRefresh),
    KeyResharing(KeyResharing),
    AuxGen(AuxGen),
    InteractiveSigning(InteractiveSigning),
}

/// The mathematical content of an [`EntryPoint`].
pub enum EntryPointView {
    KeyInit(Seq<u64>),
    KeyRefresh(KeyShareView),
    KeyResharing(KeyResharingView),
    AuxGen(Seq<u64>),
    InteractiveSigning(InteractiveSigningView),
}

impl View for EntryPoint {
    type V = EntryPointView;

    open spec fn view(&self) -> EntryPointView {
        match self {
            EntryPoint::KeyInit(entry) => EntryPointView::KeyInit(entry@),
            EntryPoint::KeyRefresh(entry) => EntryPointView::KeyRefresh(entry@),
            EntryPoint::KeyResharing(entry) => EntryPointView::KeyResharing(entry@),
            EntryPoint::AuxGen(entry) => EntryPointView::AuxGen(entry@),
            EntryPoint::InteractiveSigning(entry) => EntryPointView::InteractiveSigning(entry@),
        }
    }
}

/// Whether the data of an entry point is consistent.
pub open spec fn spec_entry_wf(entry: EntryPointView) -> bool {
    match entry {
        EntryPointView::InteractiveSigning(v) => spec_signing_wf(v),
        EntryPointView::KeyRefresh(share) => spec_key_share_wf(share) && share.holders.len() >= 2,
        EntryPointView::KeyResharing(v) => spec_resharing_wf(v),
        _ => true,
    }
}

/// The protocol an entry point starts.
pub open spec fn spec_kind(entry: EntryPointView) -> ProtocolKind {
    match entry {
        EntryPointView::KeyInit(_) => ProtocolKind::KeyInit,
        EntryPointView::KeyRefresh(_) => ProtocolKind::KeyRefresh,
        EntryPointView::KeyResharing(_) => ProtocolKind::KeyResharing,
        EntryPointView::AuxGen(_) => ProtocolKind::AuxGen,
        EntryPointView::InteractiveSigning(_) => ProtocolKind::InteractiveSigning,
    }
}

/// The number of scalars of randomness the party `me` needs to start.
pub open spec fn spec_randomness_needed(entry: EntryPointView, me: u64) -> nat {
    match entry {
        EntryPointView::KeyInit(_) => 1,
        EntryPointView::KeyRefresh(share) => (share.holders.len() - 1) as nat,
        EntryPointView::KeyResharing(v) => spec_resharing_randomness(v),
        EntryPointView::AuxGen(_) => 1,
        EntryPointView::InteractiveSigning(_) => 1,
    }
}

/// Why the party `me` cannot take part in the protocol, if it cannot.
pub open spec fn spec_admission(entry: EntryPointView, me: u64) -> Option<LocalError> {
    match entry {
        EntryPointView::KeyInit(participants) => spec_key_init_admission(participants, me),
        EntryPointView::KeyRefresh(share) => spec_refresh_admission(share, me),
        EntryPointView::KeyResharing(v) => spec_resharing_admission(v, me),
        EntryPointView::AuxGen(participants) => spec_aux_gen_admission(participants, me),
        EntryPointView::InteractiveSigning(v) => spec_signing_admission(v, me),
    }
}

/// What starting a protocol leads to for the party `me` with the given
/// randomness: its first round, or the reason for which it cannot take
/// part.
pub open spec fn spec_start(entry: EntryPointView, me: u64, randomness: Seq<u64>) -> Result<
    RoundView,
    LocalError,
> {
    match entry {
        EntryPointView::KeyInit(participants) => spec_key_init_start(participants, me, randomness),
        EntryPointView::KeyRefresh(share) => spec_refresh_start(share, me, randomness),
        EntryPointView::KeyResharing(v) => spec_resharing_start(v, me, randomness),
        EntryPointView::AuxGen(participants) => spec_aux_gen_start(participants, me, randomness),
        EntryPointView::InteractiveSigning(v) => spec_signing_start(v, me, randomness),
    }
}

/// Starting a protocol fails for exactly two reasons: the party is turned
/// away, whatever the randomness; or it is admitted and the randomness does
/// not suffice.
pub proof fn lemma_start_fails_for_two_reasons(entry: EntryPointView, me: u64, randomness: Seq<u64>)
    ensures
        spec_admission(entry, me) matches Some(e) ==> spec_start(entry, me, randomness) == Err::<
            RoundView,
            LocalError,
        >(e),
        spec_admission(entry, me) is None ==> (spec_start(entry, me, randomness) is Ok
            <==> randomness.len() >= spec_randomness_needed(entry, me)),
        spec_admission(entry, me) is None && randomness.len() < spec_randomness_needed(entry, me)
            ==> spec_start(entry, me, randomness) == Err::<RoundView, LocalError>(
            LocalError::RandomnessUnavailable,
        ),
{
}

impl EntryPoint {
    /// Whether the data of the entry point is consistent. It always is.
    pub open spec fn wf(&self) -> bool {
        spec_entry_wf(self@)
    }

    /// Recalls that the data of the entry point is consistent.
    pub fn recall(&self)
        ensures
            self.wf(),
    {
        match self {
            EntryPoint::KeyInit(_) => {},
            EntryPoint::KeyRefresh(entry) => entry.recall(),
            EntryPoint::KeyResharing(entry) => entry.recall(),
            EntryPoint::AuxGen(_) => {},
            EntryPoint::InteractiveSigning(entry) => entry.recall(),
        }
    }

    /// The protocol this entry point starts.
    pub fn kind(&self) -> (kind: ProtocolKind)
        ensures
            kind == spec_kind(self@),
    {
        match self {
            EntryPoint::KeyInit(_) => ProtocolKind::KeyInit,
            EntryPoint::KeyRefresh(_) => ProtocolKind::KeyRefresh,
            EntryPoint::KeyResharing(_) => ProtocolKind::KeyResharing,
            EntryPoint::AuxGen(_) => ProtocolKind::AuxGen,
            EntryPoint::InteractiveSigning(_) => ProtocolKind::InteractiveSigning,
        }
    }

    /// Decides whether the party `me` can take part.
    pub fn admission(&self, me: u64) -> (rejection: Option<LocalError>)
        ensures
            rejection == spec_admission(self@, me),
    {
        match self {
            EntryPoint::KeyInit(entry) => entry.admission(me),
            EntryPoint::KeyRefresh(entry) => entry.admission(me),
            EntryPoint::KeyResharing(entry) => entry.admission(me),
            EntryPoint::AuxGen(entry) => entry.admission(me),
            EntryPoint::InteractiveSigning(entry) => entry.admission(me),
        }
    }

    /// The number of scalars of randomness the party `me` needs to start.
    pub fn randomness_needed(&self, me: u64) -> (count: usize)
        ensures
            count == spec_randomness_needed(self@, me),
    {
        self.recall();
        match self {
            EntryPoint::KeyInit(_) => 1,
            EntryPoint::KeyRefresh(entry) => entry.key_share().holders().len() - 1,
            EntryPoint::KeyResharing(entry) => entry.randomness_needed(),
            EntryPoint::AuxGen(_) => 1,
            EntryPoint::InteractiveSigning(_) => 1,
        }
    }

    /// The first round for the party `me`. On success it consumes exactly
    /// the randomness the party needs; on failure none.
    pub fn first_round(&self, me: u64, randomness: &mut Randomness) -> (r: Result<Round, LocalError>)
        ensures
            match r {
                Ok(round) => round.wf() && spec_start(self@, me, old(randomness)@) == Ok::<
                    RoundView,
                    LocalError,
                >(round@) && final(randomness)@ == old(randomness)@.skip(
                    spec_randomness_needed(self@, me) as int,
                ),
                Err(e) => spec_start(self@, me, old(randomness)@) == Err::<RoundView, LocalError>(e)
                    && final(randomness)@ == old(randomness)@,
            },
    {
        match self {
            EntryPoint::KeyInit(entry) => entry.first_round(me, randomness),
            EntryPoint::KeyRefresh(entry) => entry.first_round(me, randomness),
            EntryPoint::KeyResharing(entry) => entry.first_round(me, randomness),
            EntryPoint::AuxGen(entry) => entry.first_round(me, randomness),
            EntryPoint::InteractiveSigning(entry) => entry.first_round(me, randomness),
        }
    }
}

} // verus!
