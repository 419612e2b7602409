//! Redistribution: the two rounds in which the holders of a key hand it to
//! a set of new holders, which may be the old ones.
//!
//! Every old holder splits its share into one part per new holder. In the
//! first round it broadcasts the public points of the parts; they must add
//! up to its public share, or the announcement is a provable fault. In the
//! second round it sends every new holder its part in private; a part that
//! does not match its announced public point is a provable fault. A new
//! holder's share is the sum of the parts it was sent, and its public share
//! the sum of their announced points, so the key itself does not change.

use vstd::prelude::*;
use crate::participants::spec_position;
use crate::protocols::commit_reveal::single;
use crate::protocols::parties::{
    first_column,
    lemma_rows_have_width,
    spec_column,
    spec_rows,
    spec_rows_view,
    spec_slot_fault,
    spec_slots,
    Parties,
    PartiesView,
};
use crate::protocols::results::public_points;
use crate::sessions::error::{Error, Fault, ProtocolFault, ProvableError};
use crate::tools::arithmetic::{
    lemma_add_laws,
    lemma_sub_laws,
    lemma_sum_push,
    public_point,
    scalar_add,
    scalar_sub,
    scalar_sum,
    spec_point,
    spec_points,
    spec_sub,
    spec_sum,
};
use crate::tools::codec::{encode_scalars, spec_encode_scalars};
use crate::tools::search::{lemma_first_index, spec_first_index};

verus! {

/// The parts a share is split into: the drawn scalars, and one more that
/// makes the parts add up to the share.
pub open spec fn spec_split(secret: u64, drawn: Seq<u64>) -> Seq<u64> {
    drawn.push(spec_sub(secret, spec_sum(drawn)))
}

/// The parts of a share add up to the share.
pub proof fn lemma_split_adds_up(secret: u64, drawn: Seq<u64>)
    ensures
        spec_sum(spec_split(secret, drawn)) == secret,
        spec_split(secret, drawn).len() == drawn.len() + 1,
{
    lemma_sum_push(drawn, spec_sub(secret, spec_sum(drawn)));
    lemma_sub_laws(secret, spec_sum(drawn));
    lemma_add_laws(spec_sum(drawn), spec_sub(secret, spec_sum(drawn)), 0);
}

/// Splits a share into parts.
pub fn split(secret: u64, drawn: Vec<u64>) -> (parts: Vec<u64>)
    ensures
        parts@ == spec_split(secret, drawn@),
{
    let rest = scalar_sub(secret, scalar_sum(&drawn));
    let mut parts = drawn;
    parts.push(rest);
    parts
}

/// The payload of the first round: the public points of the parts.
pub open spec fn spec_announce_payload(subshares: Seq<u64>) -> Seq<u8> {
    spec_encode_scalars(spec_points(subshares))
}

/// The payload of the second round for the new holder at position
/// `recipient`: its part.
pub open spec fn spec_share_payload(subshares: Seq<u64>, recipient: int) -> Seq<u8> {
    spec_encode_scalars(seq![subshares[recipient]])
}

/// Whether the announcement of the old holder at position `p` is at fault:
/// its points do not add up to the holder's public share. This party's own
/// is never looked at.
pub open spec fn spec_announce_fault_at(
    parties: PartiesView,
    old_public_shares: Seq<u64>,
    rows: Seq<Seq<u64>>,
    p: int,
) -> bool {
    parties.senders[p] != parties.me && spec_sum(rows[p]) != old_public_shares[p]
}

/// What the first round ends with for a new holder: the fault of the first
/// slot with which something is the matter; else a provable fault of the
/// first old holder whose announcement does not add up; else the announced
/// points of all old holders.
pub open spec fn spec_announce_outcome(
    parties: PartiesView,
    old_public_shares: Seq<u64>,
    subshares: Seq<u64>,
    slots: Seq<Option<Seq<u8>>>,
) -> Result<Seq<Seq<u64>>, Error> {
    match spec_slot_fault(parties, parties.audience.len() as int, slots) {
        Some(e) => Err(e),
        None => {
            let rows = spec_rows(parties, spec_points(subshares), slots);
            let at = spec_first_index(
                |p: int| spec_announce_fault_at(parties, old_public_shares, rows, p),
                0,
                parties.senders.len() as int,
            );
            if at < parties.senders.len() {
                Err(
                    Error::Provable(
                        ProvableError {
                            party: parties.senders[at],
                            fault: Fault::Protocol(ProtocolFault::InvalidAnnouncement),
                        },
                    ),
                )
            } else {
                Ok(rows)
            }
        },
    }
}

/// The part this party keeps for itself, if it is both an old and a new
/// holder.
pub open spec fn spec_own_part(parties: PartiesView, subshares: Seq<u64>) -> u64 {
    subshares[spec_position(parties.audience, parties.me)]
}

/// Whether the part sent by the old holder at position `p` is at fault: it
/// does not match the point announced for this party. This party's own is
/// never looked at.
pub open spec fn spec_share_fault_at(
    parties: PartiesView,
    announced: Seq<Seq<u64>>,
    parts: Seq<u64>,
    p: int,
) -> bool {
    parties.senders[p] != parties.me && spec_point(parts[p]) != announced[p][spec_position(
        parties.audience,
        parties.me,
    )]
}

/// The points announced for the new holder at position `q`, by old holder.
pub open spec fn spec_announced_for(announced: Seq<Seq<u64>>, q: int) -> Seq<u64> {
    Seq::new(announced.len(), |p: int| announced[p][q])
}

/// The public shares of the new holders: for each, the sum of the points
/// announced for it.
pub open spec fn spec_new_public_shares(announced: Seq<Seq<u64>>, holders: int) -> Seq<u64> {
    Seq::new(holders as nat, |q: int| spec_sum(spec_announced_for(announced, q)))
}

/// What the second round ends with for a new holder: the fault of the first
/// slot with which something is the matter; else a provable fault of the
/// first old holder whose part does not match its announcement; else the
/// party's new secret share and the public shares of all new holders.
pub open spec fn spec_distribute_outcome(
    parties: PartiesView,
    subshares: Seq<u64>,
    announced: Seq<Seq<u64>>,
    slots: Seq<Option<Seq<u8>>>,
) -> Result<(u64, Seq<u64>), Error> {
    match spec_slot_fault(parties, 1, slots) {
        Some(e) => Err(e),
        None => {
            let parts = spec_column(
                spec_rows(parties, seq![spec_own_part(parties, subshares)], slots),
            );
            let at = spec_first_index(
                |p: int| spec_share_fault_at(parties, announced, parts, p),
                0,
                parties.senders.len() as int,
            );
            if at < parties.senders.len() {
                Err(
                    Error::Provable(
                        ProvableError {
                            party: parties.senders[at],
                            fault: Fault::Protocol(ProtocolFault::InvalidShare),
                        },
                    ),
                )
            } else {
                Ok(
                    (
                        spec_sum(parts),
                        spec_new_public_shares(announced, parties.audience.len() as int),
                    ),
                )
            }
        },
    }
}

/// Builds the payload of the first round.
pub fn announce_payload(subshares: &Vec<u64>) -> (payload: Vec<u8>)
    ensures
        payload@ == spec_announce_payload(subshares@),
{
    encode_scalars(&public_points(subshares))
}

/// Builds the payload of the second round for the new holder at position
/// `recipient`.
pub(crate) fn share_payload(subshares: &Vec<u64>, recipient: usize) -> (payload: Vec<u8>)
    requires
        recipient < subshares@.len(),
    ensures
        payload@ == spec_share_payload(subshares@, recipient as int),
{
    encode_scalars(&single(subshares[recipient]))
}

/// Finalizes the first round for a new holder.
pub(crate) fn finalize_announce(
    parties: &Parties,
    old_public_shares: &Vec<u64>,
    subshares: &Vec<u64>,
    received: &Vec<Option<Vec<u8>>>,
) -> (r: Result<Vec<Vec<u64>>, Error>)
    requires
        old_public_shares@.len() == parties@.senders.len(),
        parties@.senders.contains(parties@.me) ==> subshares@.len() == parties@.audience.len(),
    ensures
        match r {
            Ok(rows) => spec_announce_outcome(
                parties@,
                old_public_shares@,
                subshares@,
                spec_slots(received@),
            ) == Ok::<Seq<Seq<u64>>, Error>(spec_rows_view(rows@)) && rows@.len()
                == parties@.senders.len() && forall|p: int|
                0 <= p < rows@.len() ==> (#[trigger] rows@[p])@.len() == parties@.audience.len(),
            Err(e) => spec_announce_outcome(
                parties@,
                old_public_shares@,
                subshares@,
                spec_slots(received@),
            ) == Err::<Seq<Seq<u64>>, Error>(e),
        },
{
    let width = parties.audience().len();
    let own = public_points(subshares);
    let rows = match parties.collect_rows(width, &own, received) {
        Err(e) => {
            return Err(e);
        },
        Ok(rows) => rows,
    };
    let ghost slots = spec_slots(received@);
    let ghost target = spec_rows(parties@, spec_points(subshares@), slots);
    let n = parties.senders().len();
    let me = parties.me();
    proof {
        crate::protocols::parties::lemma_no_slot_fault(parties@, width as int, slots);
        assert(spec_rows_view(rows@).len() == rows@.len());
        assert(target.len() == n);
        assert forall|p: int| 0 <= p < n implies (#[trigger] rows@[p])@.len() == width by {
            assert(spec_rows_view(rows@)[p] == rows@[p]@);
            assert(crate::protocols::parties::spec_examine_slot(parties@, width as int, slots, p)
                is None);
            if parties@.senders[p] == parties@.me {
                assert(parties@.senders.contains(parties@.me));
            }
        }
    }
    let ghost bad = |p: int| spec_announce_fault_at(parties@, old_public_shares@, target, p);
    proof {
        lemma_first_index(bad, 0, n as int);
    }
    let mut p: usize = 0;
    while p < n
        invariant
            p <= n,
            n == parties@.senders.len(),
            me == parties@.me,
            old_public_shares@.len() == n,
            rows@.len() == n,
            spec_rows_view(rows@) == target,
            slots == spec_slots(received@),
            spec_slot_fault(parties@, parties@.audience.len() as int, slots) is None,
            target == spec_rows(parties@, spec_points(subshares@), slots),
            bad == |p: int| spec_announce_fault_at(parties@, old_public_shares@, target, p),
            spec_first_index(bad, 0, n as int) == spec_first_index(bad, p as int, n as int),
        decreases n - p,
    {
        let sender = parties.senders().at(p);
        if sender != me {
            assert(spec_rows_view(rows@)[p as int] == rows@[p as int]@);
            if scalar_sum(&rows[p]) != old_public_shares[p] {
                assert(bad(p as int));
                return Err(
                    Error::Provable(
                        ProvableError {
                            party: sender,
                            fault: Fault::Protocol(ProtocolFault::InvalidAnnouncement),
                        },
                    ),
                );
            }
        }
        assert(!bad(p as int));
        p = p + 1;
    }
    Ok(rows)
}

/// The public shares of the new holders.
pub(crate) fn new_public_shares(announced: &Vec<Vec<u64>>, holders: usize) -> (shares: Vec<u64>)
    requires
        forall|p: int| 0 <= p < announced@.len() ==> (#[trigger] announced@[p])@.len() == holders,
    ensures
        shares@ == spec_new_public_shares(spec_rows_view(announced@), holders as int),
{
    let ghost rows = spec_rows_view(announced@);
    let ghost target = spec_new_public_shares(rows, holders as int);
    let mut shares: Vec<u64> = Vec::new();
    let mut q: usize = 0;
    while q < holders
        invariant
            q <= holders,
            rows == spec_rows_view(announced@),
            target == spec_new_public_shares(rows, holders as int),
            forall|p: int|
                0 <= p < announced@.len() ==> (#[trigger] announced@[p])@.len() == holders,
            shares@ == target.take(q as int),
        decreases holders - q,
    {
        let ghost column = spec_announced_for(rows, q as int);
        let mut total: u64 = 0;
        let mut p: usize = 0;
        while p < announced.len()
            invariant
                p <= announced@.len(),
                q < holders,
                rows == spec_rows_view(announced@),
                column == spec_announced_for(rows, q as int),
                forall|k: int|
                    0 <= k < announced@.len() ==> (#[trigger] announced@[k])@.len() == holders,
                total == spec_sum(column.take(p as int)),
            decreases announced.len() - p,
        {
            proof {
                assert(announced@[p as int]@.len() == holders);
                assert(rows[p as int] == announced@[p as int]@);
                assert(column.take(p + 1) =~= column.take(p as int).push(column[p as int]));
                lemma_sum_push(column.take(p as int), column[p as int]);
            }
            total = scalar_add(total, announced[p][q]);
            p = p + 1;
        }
        proof {
            assert(column.take(p as int) =~= column);
            assert(target.take(q + 1) =~= target.take(q as int).push(target[q as int]));
        }
        shares.push(total);
        q = q + 1;
    }
    proof {
        assert(target.take(q as int) =~= target);
    }
    shares
}

/// Finalizes the second round for a new holder.
pub(crate) fn finalize_distribute(
    parties: &Parties,
    subshares: &Vec<u64>,
    announced: &Vec<Vec<u64>>,
    received: &Vec<Option<Vec<u8>>>,
) -> (r: Result<(u64, Vec<u64>), Error>)
    requires
        parties@.audience.contains(parties@.me),
        parties@.senders.contains(parties@.me) ==> subshares@.len() == parties@.audience.len(),
        announced@.len() == parties@.senders.len(),
        forall|p: int|
            0 <= p < announced@.len() ==> (#[trigger] announced@[p])@.len()
                == parties@.audience.len(),
    ensures
        match r {
            Ok((secret, shares)) => spec_distribute_outcome(
                parties@,
                subshares@,
                spec_rows_view(announced@),
                spec_slots(received@),
            ) == Ok::<(u64, Seq<u64>), Error>((secret, shares@)),
            Err(e) => spec_distribute_outcome(
                parties@,
                subshares@,
                spec_rows_view(announced@),
                spec_slots(received@),
            ) == Err::<(u64, Seq<u64>), Error>(e),
        },
{
    parties.recall();
    let me = parties.me();
    let at = match parties.audience().position(me) {
        Some(at) => at,
        None => {
            assert(false);
            0
        },
    };
    let own_part: u64 = if parties.sends() {
        subshares[at]
    } else {
        0
    };
    let own = single(own_part);
    let ghost slots = spec_slots(received@);
    let ghost own_spec = seq![spec_own_part(parties@, subshares@)];
    proof {
        // This party's own row is only read where it is a sender.
        assert(spec_slot_fault(parties@, 1, slots) is None ==> spec_rows(parties@, own@, slots)
            =~= spec_rows(parties@, own_spec, slots)) by {
            if spec_slot_fault(parties@, 1, slots) is None {
                assert forall|p: int| 0 <= p < parties@.senders.len() implies spec_rows(
                    parties@,
                    own@,
                    slots,
                )[p] == spec_rows(parties@, own_spec, slots)[p] by {
                    if parties@.senders[p] == parties@.me {
                        assert(parties@.senders.contains(parties@.me));
                    }
                }
            }
        }
    }
    let rows = match parties.collect_rows(1, &own, received) {
        Err(e) => {
            return Err(e);
        },
        Ok(rows) => rows,
    };
    proof {
        lemma_rows_have_width(parties@, 1, own@, slots);
        assert forall|p: int| 0 <= p < rows@.len() implies (#[trigger] rows@[p])@.len() >= 1 by {
            assert(spec_rows_view(rows@)[p] == rows@[p]@);
        }
    }
    let parts = first_column(&rows);
    let n = parties.senders().len();
    let ghost table = spec_rows_view(announced@);
    let ghost target = spec_column(spec_rows(parties@, own_spec, slots));
    let ghost bad = |p: int| spec_share_fault_at(parties@, table, target, p);
    proof {
        lemma_first_index(bad, 0, n as int);
        assert(spec_rows(parties@, own@, slots) == spec_rows(parties@, own_spec, slots));
        assert(parts@ == target);
    }
    let mut p: usize = 0;
    while p < n
        invariant
            p <= n,
            n == parties@.senders.len(),
            me == parties@.me,
            at == spec_position(parties@.audience, parties@.me),
            at < parties@.audience.len(),
            announced@.len() == n,
            forall|k: int|
                0 <= k < announced@.len() ==> (#[trigger] announced@[k])@.len()
                    == parties@.audience.len(),
            parts@.len() == n,
            parts@ == target,
            slots == spec_slots(received@),
            spec_slot_fault(parties@, 1, slots) is None,
            own_spec == seq![spec_own_part(parties@, subshares@)],
            target == spec_column(spec_rows(parties@, own_spec, slots)),
            table == spec_rows_view(announced@),
            bad == |p: int| spec_share_fault_at(parties@, table, target, p),
            spec_first_index(bad, 0, n as int) == spec_first_index(bad, p as int, n as int),
        decreases n - p,
    {
        let sender = parties.senders().at(p);
        if sender != me {
            assert(announced@[p as int]@.len() == parties@.audience.len());
            assert(table[p as int] == announced@[p as int]@);
            if public_point(parts[p]) != announced[p][at] {
                assert(bad(p as int));
                return Err(
                    Error::Provable(
                        ProvableError {
                            party: sender,
                            fault: Fault::Protocol(ProtocolFault::InvalidShare),
                        },
                    ),
                );
            }
        }
        assert(!bad(p as int));
        p = p + 1;
    }
    let shares = new_public_shares(announced, parties.audience().len());
    Ok((scalar_sum(&parts), shares))
}

/// When no part is at fault and this party's own announcement is the
/// public points of its parts, the public share of this party is the
/// public point of its new secret share.
pub proof fn lemma_new_share_is_consistent(
    parties: PartiesView,
    subshares: Seq<u64>,
    announced: Seq<Seq<u64>>,
    slots: Seq<Option<Seq<u8>>>,
)
    requires
        parties.audience.contains(parties.me),
        announced.len() == parties.senders.len(),
        parties.senders.contains(parties.me) ==> announced[spec_position(
            parties.senders,
            parties.me,
        )] == spec_points(subshares) && subshares.len() == parties.audience.len(),
        crate::participants::is_canonical(parties.senders),
        spec_distribute_outcome(parties, subshares, announced, slots) is Ok,
    ensures
        spec_point(spec_distribute_outcome(parties, subshares, announced, slots)->Ok_0.0)
            == spec_distribute_outcome(parties, subshares, announced, slots)->Ok_0.1[spec_position(
            parties.audience,
            parties.me,
        )],
        spec_distribute_outcome(parties, subshares, announced, slots)->Ok_0.1.len()
            == parties.audience.len(),
{
    let at = spec_position(parties.audience, parties.me);
    let parts = spec_column(spec_rows(parties, seq![spec_own_part(parties, subshares)], slots));
    let bad = |p: int| spec_share_fault_at(parties, announced, parts, p);
    lemma_first_index(bad, 0, parties.senders.len() as int);
    let column = spec_announced_for(announced, at);
    assert forall|p: int| 0 <= p < parties.senders.len() implies column[p] == spec_point(
        parts[p],
    ) by {
        assert(!bad(p));
        if parties.senders[p] == parties.me {
            crate::participants::lemma_position_is_unique(parties.senders, p);
        }
    }
    assert(column =~= spec_points(parts));
    crate::tools::arithmetic::lemma_point_of_sequence_sum(parts);
}

} // verus!
