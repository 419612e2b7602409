//! A session engine for threshold signing protocols with identifiable aborts.
//!
//! A set of mutually distrusting parties runs a multi-round protocol by
//! exchanging signed messages. Each party drives one session, which
//! authenticates what it receives, cross-examines broadcasts for
//! equivocation, and turns every detected fault into an attributable error.
//!
//! The parts, from the leaves up:
//!
//! - [`tools`]: scalars and public points, the digest, the wire form of
//!   scalars, and randomness.
//! - [`sigma`]: the zero-knowledge argument attached to auxiliary data.
//! - [`participants`]: sets of identities in canonical order.
//! - [`sessions::signed_message`]: signed envelopes, sealed and opened.
//! - [`sessions::broadcast`]: consensus on broadcasts and the evidence of
//!   equivocation.
//! - [`sessions::error`]: local, remote and provable failures.
//! - [`protocols`]: the five protocols as rounds of a state machine, their
//!   entry points and their results.
//! - [`sessions::states`]: the session that drives the rounds.
//! - [`sessions::guarantees`] and [`protocols::guarantees`]: what is proved
//!   about all of it.
//!
//! Every function but the one that asks the operating system for random
//! bytes is verified against the contract it carries. The arithmetic
//! underneath is a model: scalars are integers modulo `2^64`
//! and public points their multiples of a fixed generator, which keeps the
//! algebra of the protocols and none of the hardness.

pub mod participants;
pub mod protocols;
pub mod sessions;
pub mod sigma;
pub mod tools;

pub use participants::ParticipantSet;
pub use protocols::{
    AuxGen, AuxInfo, EntryPoint, FinalizeOutcome, InteractiveSigning, KeyInit, KeyRefresh,
    KeyResharing, KeyShare, NewHolder, OldHolder, PrehashedMessage, ProtocolKind, ProtocolResult,
    Round, Signature,
};
pub use sessions::{
    ConsensusError, Error, LocalError, Outgoing, ProvableError, RemoteError, RemoteErrorEnum,
    Session, SignedMessage, SigningKey,
};
pub use sigma::FacProof;
pub use tools::random::Randomness;
