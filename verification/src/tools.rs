//! Building blocks shared by the protocols and the session layer.

pub mod arithmetic;
pub mod codec;
pub mod hashing;
pub mod random;
pub mod search;
