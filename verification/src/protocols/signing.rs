//! Signing: the last of the three rounds in which the holders of a key
//! sign a message.
//!
//! In the first two rounds every holder commits to the public point of a
//! fresh nonce and reveals it. The challenge of the signature is derived
//! from the sum of these points, the public key and the message. In the
//! last round every holder broadcasts its partial signature: its nonce
//! plus the challenge times its share. A partial signature is verified against its holder's nonce point
//! and public share, so a wrong one is a provable fault. The signature is
//! the sum of the nonce points with the sum of the partial signatures.

use vstd::prelude::*;
use crate::protocols::commit_reveal::single;
use crate::protocols::parties::{
    first_column,
    lemma_rows_have_width,
    spec_column,
    spec_rows,
    spec_rows_view,
    spec_slot_fault,
    spec_slots,
    Parties,
    PartiesView,
};
use crate::protocols::results::{signing_challenge, spec_signing_challenge, Signature};
use crate::sessions::error::{Error, Fault, ProtocolFault, ProvableError};
use crate::tools::arithmetic::{
    public_point,
    scalar_add,
    scalar_mul,
    scalar_sum,
    spec_add,
    spec_mul,
    spec_point,
    spec_sum,
};
use crate::tools::codec::{encode_scalars, spec_encode_scalars};
use crate::tools::search::{lemma_first_index, spec_first_index};

verus! {

/// The challenge all holders answer: derived from the sum of the nonce
/// points, the public key and the digest of the message.
pub open spec fn spec_common_challenge(
    nonce_points: Seq<u64>,
    public_shares: Seq<u64>,
    message_digest: u64,
) -> u64 {
    spec_signing_challenge(spec_sum(nonce_points), spec_sum(public_shares), message_digest)
}

/// A holder's partial signature: its nonce plus the challenge times its
/// share.
pub open spec fn spec_partial(nonce: u64, challenge: u64, share_secret: u64) -> u64 {
    spec_add(nonce, spec_mul(challenge, share_secret))
}

/// Whether a partial signature verifies against its holder's nonce point
/// and public share.
pub open spec fn spec_partial_verifies(
    partial: u64,
    challenge: u64,
    nonce_point: u64,
    public_share: u64,
) -> bool {
    spec_point(partial) == spec_add(nonce_point, spec_mul(challenge, public_share))
}

/// The payload of the last round: the partial signature.
pub open spec fn spec_partial_payload(
    nonce: u64,
    share_secret: u64,
    nonce_points: Seq<u64>,
    public_shares: Seq<u64>,
    message_digest: u64,
) -> Seq<u8> {
    spec_encode_scalars(
        seq![
            spec_partial(
                nonce,
                spec_common_challenge(nonce_points, public_shares, message_digest),
                share_secret,
            ),
        ],
    )
}

/// Whether the partial signature of the holder at position `p` is at
/// fault. This party's own is never looked at.
pub open spec fn spec_partial_fault_at(
    parties: PartiesView,
    partials: Seq<u64>,
    challenge: u64,
    nonce_points: Seq<u64>,
    public_shares: Seq<u64>,
    p: int,
) -> bool {
    parties.senders[p] != parties.me && !spec_partial_verifies(
        partials[p],
        challenge,
        nonce_points[p],
        public_shares[p],
    )
}

/// What the last round ends with: the fault of the first slot with which
/// something is the matter; else a provable fault of the first holder whose
/// partial signature does not verify; else the signature.
pub open spec fn spec_partial_outcome(
    parties: PartiesView,
    nonce: u64,
    share_secret: u64,
    nonce_points: Seq<u64>,
    public_shares: Seq<u64>,
    message_digest: u64,
    slots: Seq<Option<Seq<u8>>>,
) -> Result<Signature, Error> {
    let challenge = spec_common_challenge(nonce_points, public_shares, message_digest);
    match spec_slot_fault(parties, 1, slots) {
        Some(e) => Err(e),
        None => {
            let partials = spec_column(
                spec_rows(parties, seq![spec_partial(nonce, challenge, share_secret)], slots),
            );
            let at = spec_first_index(
                |p: int|
                    spec_partial_fault_at(
                        parties,
                        partials,
                        challenge,
                        nonce_points,
                        public_shares,
                        p,
                    ),
                0,
                parties.senders.len() as int,
            );
            if at < parties.senders.len() {
                Err(
                    Error::Provable(
                        ProvableError {
                            party: parties.senders[at],
                            fault: Fault::Protocol(ProtocolFault::InvalidPartialSignature),
                        },
                    ),
                )
            } else {
                Ok(Signature { r: spec_sum(nonce_points), s: spec_sum(partials) })
            }
        },
    }
}

/// Computes this party's partial signature.
pub fn partial(
    nonce: u64,
    share_secret: u64,
    nonce_points: &Vec<u64>,
    public_shares: &Vec<u64>,
    message_digest: u64,
) -> (r: u64)
    ensures
        r == spec_partial(
            nonce,
            spec_common_challenge(nonce_points@, public_shares@, message_digest),
            share_secret,
        ),
{
    let e = signing_challenge(scalar_sum(nonce_points), scalar_sum(public_shares), message_digest);
    scalar_add(nonce, scalar_mul(e, share_secret))
}

/// Builds the payload of the last round.
pub fn partial_payload(
    nonce: u64,
    share_secret: u64,
    nonce_points: &Vec<u64>,
    public_shares: &Vec<u64>,
    message_digest: u64,
) -> (payload: Vec<u8>)
    ensures
        payload@ == spec_partial_payload(
            nonce,
            share_secret,
            nonce_points@,
            public_shares@,
            message_digest,
        ),
{
    encode_scalars(&single(partial(nonce, share_secret, nonce_points, public_shares, message_digest)))
}

/// Finalizes the last round.
pub(crate) fn finalize_partial(
    parties: &Parties,
    nonce: u64,
    share_secret: u64,
    nonce_points: &Vec<u64>,
    public_shares: &Vec<u64>,
    message_digest: u64,
    received: &Vec<Option<Vec<u8>>>,
) -> (r: Result<Signature, Error>)
    requires
        nonce_points@.len() == parties@.senders.len(),
        public_shares@.len() == parties@.senders.len(),
    ensures
        r == spec_partial_outcome(
            parties@,
            nonce,
            share_secret,
            nonce_points@,
            public_shares@,
            message_digest,
            spec_slots(received@),
        ),
{
    let e = signing_challenge(scalar_sum(nonce_points), scalar_sum(public_shares), message_digest);
    let own = single(scalar_add(nonce, scalar_mul(e, share_secret)));
    let rows = match parties.collect_rows(1, &own, received) {
        Err(e) => {
            return Err(e);
        },
        Ok(rows) => rows,
    };
    let ghost slots = spec_slots(received@);
    proof {
        lemma_rows_have_width(parties@, 1, own@, slots);
        assert forall|p: int| 0 <= p < rows@.len() implies (#[trigger] rows@[p])@.len() >= 1 by {
            assert(spec_rows_view(rows@)[p] == rows@[p]@);
        }
    }
    let partials = first_column(&rows);
    let n = parties.senders().len();
    let me = parties.me();
    let ghost target = spec_column(
        spec_rows(parties@, seq![spec_partial(nonce, e, share_secret)], slots),
    );
    let ghost bad = |p: int|
        spec_partial_fault_at(parties@, target, e, nonce_points@, public_shares@, p);
    proof {
        lemma_first_index(bad, 0, n as int);
    }
    let mut p: usize = 0;
    while p < n
        invariant
            p <= n,
            n == parties@.senders.len(),
            me == parties@.me,
            nonce_points@.len() == n,
            public_shares@.len() == n,
            partials@.len() == n,
            partials@ == target,
            slots == spec_slots(received@),
            spec_slot_fault(parties@, 1, slots) is None,
            e == spec_common_challenge(nonce_points@, public_shares@, message_digest),
            target == spec_column(
                spec_rows(parties@, seq![spec_partial(nonce, e, share_secret)], slots),
            ),
            bad == |p: int|
                spec_partial_fault_at(parties@, target, e, nonce_points@, public_shares@, p),
            spec_first_index(bad, 0, n as int) == spec_first_index(bad, p as int, n as int),
        decreases n - p,
    {
        let sender = parties.senders().at(p);
        if sender != me {
            let expected = scalar_add(nonce_points[p], scalar_mul(e, public_shares[p]));
            if public_point(partials[p]) != expected {
                assert(bad(p as int));
                return Err(
                    Error::Provable(
                        ProvableError {
                            party: sender,
                            fault: Fault::Protocol(ProtocolFault::InvalidPartialSignature),
                        },
                    ),
                );
            }
        }
        assert(!bad(p as int));
        p = p + 1;
    }
    Ok(Signature { r: scalar_sum(nonce_points), s: scalar_sum(&partials) })
}

} // verus!
