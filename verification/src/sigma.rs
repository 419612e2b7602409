//! Zero-knowledge arguments attached to protocol payloads.

pub mod fac;

pub use fac::FacProof;
