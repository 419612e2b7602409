//! Commit and reveal: the rounds in which parties make public values known
//! to each other.
//!
//! In a commit round every party broadcasts a commitment to its public
//! value. In a reveal round it broadcasts the value itself. Key generation
//! commits and reveals the public shares; signing commits and reveals the
//! nonce points; auxiliary generation reveals the public auxiliary values
//! without a commitment, each with a proof about it. A value that does not
//! match its commitment, or a proof that is not accepted, is a provable
//! fault of its sender.

use vstd::prelude::*;
use crate::protocols::parties::{
    first_column,
    lemma_rows_have_width,
    spec_column,
    spec_rows,
    spec_rows_view,
    spec_slot_fault,
    spec_slots,
    Parties,
    PartiesView,
};
use crate::sessions::error::{Error, Fault, LocalError, ProtocolFault, ProvableError};
use crate::sigma::fac::FacProof;
use crate::tools::arithmetic::{public_point, spec_point};
use crate::tools::codec::{encode_scalars, spec_encode_scalars};
use crate::tools::hashing::{digest, spec_digest};
use crate::tools::search::{lemma_first_index, spec_first_index};

verus! {

/// The commitment to a public value: the digest of its encoding.
pub open spec fn spec_commitment(value: u64) -> u64 {
    spec_digest(spec_encode_scalars(seq![value]))
}

/// The payload of a commit round: the commitment to the party's public
/// point.
pub open spec fn spec_commit_payload(secret: u64) -> Seq<u8> {
    spec_encode_scalars(seq![spec_commitment(spec_point(secret))])
}

/// The payload of a reveal round: the party's public point, followed by
/// the bytes of its proof if it carries one.
pub open spec fn spec_reveal_payload(secret: u64, argument: Option<FacProof>) -> Seq<u8> {
    spec_encode_scalars(seq![spec_point(secret)]) + match argument {
        Some(given) => given.spec_to_bytes(),
        None => Seq::empty(),
    }
}

/// What a commit round ends with: the fault of the first slot with which
/// something is the matter, or the commitments of all parties by position.
pub open spec fn spec_commit_outcome(
    parties: PartiesView,
    secret: u64,
    slots: Seq<Option<Seq<u8>>>,
) -> Result<Seq<u64>, Error> {
    match spec_slot_fault(parties, 1, slots) {
        Some(e) => Err(e),
        None => Ok(
            spec_column(spec_rows(parties, seq![spec_commitment(spec_point(secret))], slots)),
        ),
    }
}

/// What is the matter with the value revealed by the sender at position
/// `p`, if anything: the values were committed to and it does not match the
/// sender's commitment, or the round asks for a proof and the sender's is
/// not accepted for its payload.
pub open spec fn spec_reveal_fault_at(
    parties: PartiesView,
    committed: bool,
    commitments: Seq<u64>,
    revealed: Seq<u64>,
    with_proof: bool,
    slots: Seq<Option<Seq<u8>>>,
    p: int,
) -> Option<Error> {
    let sender = parties.senders[p];
    if sender == parties.me {
        None
    } else if committed && spec_commitment(revealed[p]) != commitments[p] {
        Some(
            Error::Provable(
                ProvableError {
                    party: sender,
                    fault: Fault::Protocol(ProtocolFault::CommitmentMismatch),
                },
            ),
        )
    } else if with_proof && !(FacProof {  }).spec_verify(slots[p]->0) {
        Some(
            Error::Provable(
                ProvableError { party: sender, fault: Fault::Protocol(ProtocolFault::InvalidProof) },
            ),
        )
    } else {
        None
    }
}

/// What a reveal round ends with: the fault of the first slot with which
/// something is the matter; else the fault of the first revealed value with
/// which something is the matter; else the public values of all parties by
/// position.
pub open spec fn spec_reveal_outcome(
    parties: PartiesView,
    secret: u64,
    committed: bool,
    commitments: Seq<u64>,
    with_proof: bool,
    slots: Seq<Option<Seq<u8>>>,
) -> Result<Seq<u64>, Error> {
    match spec_slot_fault(parties, 1, slots) {
        Some(e) => Err(e),
        None => {
            let revealed = spec_column(spec_rows(parties, seq![spec_point(secret)], slots));
            let at = spec_first_index(
                |p: int|
                    spec_reveal_fault_at(
                        parties,
                        committed,
                        commitments,
                        revealed,
                        with_proof,
                        slots,
                        p,
                    )
                        is Some,
                0,
                parties.senders.len() as int,
            );
            if at < parties.senders.len() {
                Err(
                    spec_reveal_fault_at(
                        parties,
                        committed,
                        commitments,
                        revealed,
                        with_proof,
                        slots,
                        at,
                    )->0,
                )
            } else {
                Ok(revealed)
            }
        },
    }
}

/// A list that holds one scalar.
pub fn single(value: u64) -> (list: Vec<u64>)
    ensures
        list@ == seq![value],
{
    let mut list: Vec<u64> = Vec::new();
    list.push(value);
    proof {
        assert(list@ =~= seq![value]);
    }
    list
}

/// Computes the commitment to a public value.
pub fn commitment(value: u64) -> (c: u64)
    ensures
        c == spec_commitment(value),
{
    digest(&encode_scalars(&single(value)))
}

/// Builds the payload of a commit round.
pub fn commit_payload(secret: u64) -> (payload: Vec<u8>)
    ensures
        payload@ == spec_commit_payload(secret),
{
    encode_scalars(&single(commitment(public_point(secret))))
}

/// Builds the payload of a reveal round.
pub fn reveal_payload(secret: u64, argument: &Option<FacProof>) -> (payload: Vec<u8>)
    ensures
        payload@ == spec_reveal_payload(secret, *argument),
{
    let mut payload = encode_scalars(&single(public_point(secret)));
    let ghost head = payload@;
    match argument {
        Some(given) => {
            let tail = given.to_bytes();
            let mut i: usize = 0;
            while i < tail.len()
                invariant
                    i <= tail.len(),
                    payload@ == head + tail@.take(i as int),
                decreases tail.len() - i,
            {
                payload.push(tail[i]);
                proof {
                    assert(tail@.take(i + 1) =~= tail@.take(i as int).push(tail@[i as int]));
                    assert(payload@ =~= head + tail@.take(i + 1));
                }
                i = i + 1;
            }
            proof {
                assert(tail@.take(i as int) =~= tail@);
            }
        },
        None => {
            proof {
                assert(payload@ =~= head + Seq::<u8>::empty());
            }
        },
    }
    payload
}

/// The bytes of `bytes` from position `from` on; none if there are not that
/// many.
pub fn tail_from(bytes: &Vec<u8>, from: usize) -> (tail: Vec<u8>)
    ensures
        tail@ == (if from <= bytes@.len() {
            bytes@.subrange(from as int, bytes@.len() as int)
        } else {
            Seq::empty()
        }),
{
    let mut tail: Vec<u8> = Vec::new();
    if from > bytes.len() {
        return tail;
    }
    let mut i: usize = from;
    while i < bytes.len()
        invariant
            from <= i <= bytes.len(),
            tail@ == bytes@.subrange(from as int, i as int),
        decreases bytes.len() - i,
    {
        tail.push(bytes[i]);
        proof {
            assert(bytes@.subrange(from as int, i + 1) =~= bytes@.subrange(
                from as int,
                i as int,
            ).push(bytes@[i as int]));
        }
        i = i + 1;
    }
    tail
}

/// Finalizes a commit round.
pub(crate) fn finalize_commit(parties: &Parties, secret: u64, received: &Vec<Option<Vec<u8>>>) -> (r:
    Result<Vec<u64>, Error>)
    ensures
        match r {
            Ok(commitments) => spec_commit_outcome(parties@, secret, spec_slots(received@)) == Ok::<
                Seq<u64>,
                Error,
            >(commitments@) && commitments@.len() == parties@.senders.len(),
            Err(e) => spec_commit_outcome(parties@, secret, spec_slots(received@)) == Err::<
                Seq<u64>,
                Error,
            >(e),
        },
{
    let own = single(commitment(public_point(secret)));
    match parties.collect_rows(1, &own, received) {
        Err(e) => Err(e),
        Ok(rows) => {
            proof {
                lemma_rows_have_width(parties@, 1, own@, spec_slots(received@));
                assert forall|p: int| 0 <= p < rows@.len() implies (#[trigger] rows@[p])@.len()
                    >= 1 by {
                    assert(spec_rows_view(rows@)[p] == rows@[p]@);
                }
            }
            Ok(first_column(&rows))
        },
    }
}

/// Finalizes a reveal round.
pub(crate) fn finalize_reveal(
    parties: &Parties,
    secret: u64,
    committed: bool,
    commitments: &Vec<u64>,
    with_proof: bool,
    received: &Vec<Option<Vec<u8>>>,
) -> (r: Result<Vec<u64>, Error>)
    requires
        committed ==> commitments@.len() == parties@.senders.len(),
    ensures
        match r {
            Ok(revealed) => spec_reveal_outcome(
                parties@,
                secret,
                committed,
                commitments@,
                with_proof,
                spec_slots(received@),
            ) == Ok::<Seq<u64>, Error>(revealed@) && revealed@.len() == parties@.senders.len()
                && forall|p: int|
                0 <= p < revealed@.len() && parties@.senders[p] == parties@.me
                    ==> #[trigger] revealed@[p] == spec_point(secret),
            Err(e) => spec_reveal_outcome(
                parties@,
                secret,
                committed,
                commitments@,
                with_proof,
                spec_slots(received@),
            ) == Err::<Seq<u64>, Error>(e),
        },
{
    let own = single(public_point(secret));
    let rows = match parties.collect_rows(1, &own, received) {
        Err(e) => {
            return Err(e);
        },
        Ok(rows) => rows,
    };
    let ghost slots = spec_slots(received@);
    proof {
        lemma_rows_have_width(parties@, 1, own@, slots);
        assert forall|p: int| 0 <= p < rows@.len() implies (#[trigger] rows@[p])@.len() >= 1 by {
            assert(spec_rows_view(rows@)[p] == rows@[p]@);
        }
    }
    let revealed = first_column(&rows);
    let n = parties.senders().len();
    let me = parties.me();
    let ghost target = spec_column(spec_rows(parties@, seq![spec_point(secret)], slots));
    let ghost bad = |p: int|
        spec_reveal_fault_at(parties@, committed, commitments@, target, with_proof, slots, p) is Some;
    proof {
        lemma_first_index(bad, 0, n as int);
    }
    let mut p: usize = 0;
    while p < n
        invariant
            p <= n,
            n == parties@.senders.len(),
            me == parties@.me,
            committed ==> commitments@.len() == n,
            revealed@.len() == n,
            slots == spec_slots(received@),
            forall|k: int|
                0 <= k < n && parties@.senders[k] != parties@.me ==> k < slots.len() && (
                #[trigger] slots[k]) is Some && slots[k]->0.len() == 8,
            spec_slot_fault(parties@, 1, slots) is None,
            target == spec_column(spec_rows(parties@, seq![spec_point(secret)], slots)),
            revealed@ == target,
            bad == |p: int|
                spec_reveal_fault_at(parties@, committed, commitments@, target, with_proof, slots, p)
                    is Some,
            spec_first_index(bad, 0, n as int) == spec_first_index(bad, p as int, n as int),
        decreases n - p,
    {
        let sender = parties.senders().at(p);
        if sender != me {
            if committed && commitment(revealed[p]) != commitments[p] {
                assert(bad(p as int));
                return Err(
                    Error::Provable(
                        ProvableError {
                            party: sender,
                            fault: Fault::Protocol(ProtocolFault::CommitmentMismatch),
                        },
                    ),
                );
            }
            if with_proof {
                assert(slots[p as int] is Some && slots[p as int]->0.len() == 8);
                match &received[p] {
                    Some(payload) => {
                        let tail = tail_from(payload, 8);
                        match FacProof::from_bytes(&tail) {
                            Some(given) => {
                                if !given.verify(payload) {
                                    assert(bad(p as int));
                                    return Err(
                                        Error::Provable(
                                            ProvableError {
                                                party: sender,
                                                fault: Fault::Protocol(
                                                    ProtocolFault::InvalidProof,
                                                ),
                                            },
                                        ),
                                    );
                                }
                            },
                            None => {
                                assert(false);
                                return Err(
                                    Error::Provable(
                                        ProvableError {
                                            party: sender,
                                            fault: Fault::CannotDeserialize,
                                        },
                                    ),
                                );
                            },
                        }
                    },
                    None => {
                        assert(false);
                        return Err(Error::Local(LocalError::MissingMessage { party: sender }));
                    },
                }
            }
        }
        assert(!bad(p as int));
        p = p + 1;
    }
    Ok(revealed)
}

} // verus!
