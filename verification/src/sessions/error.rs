//! The three classes of failure a session can report.
//!
//! A local error is this party's own problem. A remote error is a complaint
//! about a peer that carries no proof. A provable error names a peer and
//! rests on material that the peer signed, so that anyone can verify it.

use vstd::prelude::*;
use crate::sessions::broadcast::ConsensusError;
use crate::sessions::signed_message::{AuthenticationError, AuthenticationFault};

verus! {

/// A failure on this party's own side: bad input, misuse, or its environment.
/// It ends this party's run and accuses nobody.
#[derive(Clone, Copy, Debug, PartialEq, Eq, Structural)]
pub enum LocalError {
    /// A protocol needs at least two parties.
    TooFewParticipants,
    /// The list of participants names an identity twice.
    DuplicateIdentity,
    /// This party is not among the participants.
    NotAParticipant,
    /// The associated data belongs to another owner or another set of parties.
    InconsistentAssociatedData,
    /// The number of secrets handed in does not fit the protocol.
    WrongSecretCount,
    /// The operating system supplied no randomness.
    RandomnessUnavailable,
    /// A round was finalized without the message of an expected sender.
    MissingMessage { party: u64 },
    /// `finalize` was called before the round was complete.
    NotReady,
    /// The session has already reached its outcome.
    SessionFinished,
}

/// What a peer is blamed for without proof.
#[derive(Clone, Copy, Debug, PartialEq, Eq, Structural)]
pub enum RemoteErrorEnum {
    /// The sender is not expected to send to this party in this protocol.
    UnexpectedSender,
    /// The category of the message does not fit the round it names.
    UnexpectedMessage,
    /// A message of this sender for this round and category was already
    /// accepted.
    DuplicateMessage,
    /// A confirmation reports a broadcast without a valid signature of its
    /// sender: an accusation with nothing to back it.
    UnsubstantiatedClaim,
}

/// A complaint about a peer that nobody else can verify.
#[derive(Clone, Copy, Debug, PartialEq, Eq, Structural)]
pub struct RemoteError {
    pub party: u64,
    pub error: RemoteErrorEnum,
}

/// A violation of a protocol's own rules, found when a round is finalized.
#[derive(Clone, Copy, Debug, PartialEq, Eq, Structural)]
pub enum ProtocolFault {
    /// A revealed value does not match the commitment made for it.
    CommitmentMismatch,
    /// A proof attached to a payload was not accepted.
    InvalidProof,
    /// The public values a party announced do not add up to its public share.
    InvalidAnnouncement,
    /// A share sent in private does not match its announced public value.
    InvalidShare,
    /// A partial signature does not verify against its signer's public share.
    InvalidPartialSignature,
}

/// What a peer is provably at fault for.
#[derive(Clone, Copy, Debug, PartialEq, Eq, Structural)]
pub enum Fault {
    /// The envelope was not accepted.
    Authentication(AuthenticationFault),
    /// The payload is not the encoding of what the round expects.
    CannotDeserialize,
    /// The payload breaks a rule of the protocol.
    Protocol(ProtocolFault),
    /// The peer broadcast different payloads to different recipients.
    Consensus(ConsensusError),
}

/// Misbehaviour of a peer that rests on material the peer signed.
#[derive(Clone, Copy, Debug, PartialEq, Eq, Structural)]
pub struct ProvableError {
    pub party: u64,
    pub fault: Fault,
}

/// A failure, by class.
#[derive(Clone, Copy, Debug, PartialEq, Eq, Structural)]
pub enum Error {
    /// This party's own problem.
    Local(LocalError),
    /// An accusation against a peer, without proof.
    Remote(RemoteError),
    /// A fault of a peer, with proof.
    Provable(ProvableError),
}

impl Error {
    /// The error for an envelope that was not accepted: a provable fault of
    /// the sender the envelope claims.
    pub open spec fn spec_from_authentication(e: AuthenticationError) -> Error {
        Error::Provable(ProvableError { party: e.sender, fault: Fault::Authentication(e.fault) })
    }

    /// Classifies an envelope that was not accepted as a provable fault of
    /// the sender it claims.
    pub fn from_authentication(e: AuthenticationError) -> (error: Error)
        ensures
            error == Error::spec_from_authentication(e),
    {
        Error::Provable(ProvableError { party: e.sender, fault: Fault::Authentication(e.fault) })
    }

    /// The error for a broadcast that failed consensus: a provable fault of
    /// the sender whose reports disagree.
    pub open spec fn spec_from_consensus(e: ConsensusError) -> Error {
        Error::Provable(ProvableError { party: e.sender, fault: Fault::Consensus(e) })
    }

    /// Classifies a failed consensus as a provable fault of the equivocating
    /// sender.
    pub fn from_consensus(e: ConsensusError) -> (error: Error)
        ensures
            error == Error::spec_from_consensus(e),
    {
        Error::Provable(ProvableError { party: e.sender, fault: Fault::Consensus(e) })
    }

    /// Whether the failure can be acted on without trusting whoever reports
    /// it.
    pub fn is_provable(&self) -> (provable: bool)
        ensures
            provable == (*self is Provable),
    {
        match self {
            Error::Provable(_) => true,
            _ => false,
        }
    }

    /// The peer the failure is attributed to, if it is attributed to one.
    pub fn party(&self) -> (party: Option<u64>)
        ensures
            party == (match *self {
                Error::Local(_) => None,
                Error::Remote(e) => Some(e.party),
                Error::Provable(e) => Some(e.party),
            }),
    {
        match self {
            Error::Local(_) => None,
            Error::Remote(e) => Some(e.party),
            Error::Provable(e) => Some(e.party),
        }
    }
}

} // verus!
