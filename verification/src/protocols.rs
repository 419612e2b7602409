//! The protocols a session can run, as rounds of a state machine.

pub mod aux_gen;
pub mod commit_reveal;
pub mod entry;
pub mod guarantees;
pub mod interactive_signing;
pub mod key_init;
pub mod key_refresh;
pub mod key_resharing;
pub mod parties;
pub mod redistribution;
pub mod results;
pub mod round;
pub mod signing;

pub use aux_gen::AuxGen;
pub use entry::EntryPoint;
pub use interactive_signing::{InteractiveSigning, PrehashedMessage};
pub use key_init::KeyInit;
pub use key_refresh::KeyRefresh;
pub use key_resharing::{KeyResharing, NewHolder, OldHolder};
pub use parties::Parties;
pub use results::{AuxInfo, KeyShare, ProtocolResult, Signature};
pub use round::{FinalizeOutcome, ProtocolKind, Round};
