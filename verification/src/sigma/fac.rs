//! The argument that a party's auxiliary modulus is well formed.
//!
//! This build carries a stand-in: the proof holds no data, takes no bytes on
//! the wire, and every proof is accepted. The interface is the one a real
//! argument has, and callers treat a rejection as a fault of the prover.

use vstd::prelude::*;
use crate::tools::random::Randomness;

verus! {

/// A proof that the prover's auxiliary modulus is well formed.
#[derive(Clone, Copy, Debug, PartialEq, Eq, Structural)]
pub struct FacProof {}

impl FacProof {
    /// Whether the proof is accepted for the public data `aux`. The stand-in
    /// accepts every proof.
    pub open spec fn spec_verify(self, aux: Seq<u8>) -> bool {
        true
    }

    /// The bytes of the proof on the wire.
    pub open spec fn spec_to_bytes(self) -> Seq<u8> {
        Seq::empty()
    }

    /// Generates a proof from the prover's secret and the public data `aux`.
    /// The proof is accepted by [`FacProof::verify`] for the same `aux`. The
    /// stand-in consumes no randomness.
    pub fn random(randomness: &mut Randomness, secret: u64, aux: &Vec<u8>) -> (made: FacProof)
        ensures
            made == (FacProof {  }),
            made.spec_verify(aux@),
            final(randomness)@ == old(randomness)@,
    {
        FacProof {  }
    }

    /// Decides whether the proof is accepted for the public data `aux`. The
    /// decision depends on the proof and on `aux` alone.
    pub fn verify(&self, aux: &Vec<u8>) -> (ok: bool)
        ensures
            ok == self.spec_verify(aux@),
    {
        true
    }

    /// The bytes of the proof on the wire: none.
    pub fn to_bytes(&self) -> (bytes: Vec<u8>)
        ensures
            bytes@ == self.spec_to_bytes(),
    {
        Vec::new()
    }

    /// Reads a proof from its bytes on the wire. Only the empty encoding is a
    /// proof.
    pub fn from_bytes(bytes: &Vec<u8>) -> (read: Option<FacProof>)
        ensures
            read == (if bytes@.len() == 0 {
                Some(FacProof {  })
            } else {
                None
            }),
    {
        if bytes.len() == 0 {
            Some(FacProof {  })
        } else {
            None
        }
    }
}

} // verus!
