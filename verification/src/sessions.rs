//! One party's run of a protocol: envelopes, errors, and the round driver.

pub mod broadcast;
pub mod error;
pub mod guarantees;
pub mod signed_message;
pub mod states;

pub use broadcast::{ConsensusError, Report};
pub use error::{Error, Fault, LocalError, ProtocolFault, ProvableError, RemoteError, RemoteErrorEnum};
pub use signed_message::{AuthenticationError, AuthenticationFault, PayloadKind, SignedMessage, SigningKey};
pub use states::{Outgoing, Session};
