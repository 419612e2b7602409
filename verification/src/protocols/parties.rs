//! Who takes part in a run, and what each party has received.
//!
//! A run has senders and an audience. A party in the audience expects one
//! payload per round from every sender but itself. What it has received is
//! kept in slots, one per sender, in the canonical order of the senders.

use vstd::prelude::*;
use crate::participants::{is_canonical, ParticipantSet};
use crate::sessions::error::{Error, Fault, LocalError, ProvableError};
use crate::tools::codec::{decode_scalars, spec_decode_scalars};
use crate::tools::search::{lemma_first_index, spec_first_index};

verus! {

/// The parties of a run, seen from one of them.
#[derive(Debug)]
pub struct Parties {
    me: u64,
    senders: ParticipantSet,
    audience: ParticipantSet,
}

/// The mathematical content of [`Parties`].
pub struct PartiesView {
    pub me: u64,
    pub senders: Seq<u64>,
    pub audience: Seq<u64>,
}

impl View for Parties {
    type V = PartiesView;

    closed spec fn view(&self) -> PartiesView {
        PartiesView { me: self.me, senders: self.senders@, audience: self.audience@ }
    }
}

/// Whether the parties are well formed: both sets are in canonical order and
/// this party belongs to at least one of them.
pub open spec fn spec_parties_wf(v: PartiesView) -> bool {
    &&& is_canonical(v.senders)
    &&& is_canonical(v.audience)
    &&& (v.senders.contains(v.me) || v.audience.contains(v.me))
}

/// The payloads held in a vector of slots.
pub open spec fn spec_slots(received: Seq<Option<Vec<u8>>>) -> Seq<Option<Seq<u8>>> {
    Seq::new(
        received.len(),
        |p: int|
            match received[p] {
                Some(payload) => Some(payload@),
                None => None,
            },
    )
}

/// The scalars held in a vector of rows.
pub open spec fn spec_rows_view(rows: Seq<Vec<u64>>) -> Seq<Seq<u64>> {
    Seq::new(rows.len(), |p: int| rows[p]@)
}

/// What is the matter with the slot of the sender at position `p`, if
/// anything, for a round whose payloads hold `width` scalars: this party's
/// own slot is never looked at; an empty slot is a missing message, which
/// is this party's own problem; a payload that does not decode to `width`
/// scalars is a provable fault of its sender.
pub open spec fn spec_examine_slot(
    parties: PartiesView,
    width: int,
    slots: Seq<Option<Seq<u8>>>,
    p: int,
) -> Option<Error> {
    let sender = parties.senders[p];
    if sender == parties.me {
        None
    } else if p >= slots.len() || slots[p] is None {
        Some(Error::Local(LocalError::MissingMessage { party: sender }))
    } else {
        match spec_decode_scalars(slots[p]->0) {
            Some(list) => if list.len() == width {
                None
            } else {
                Some(
                    Error::Provable(
                        ProvableError { party: sender, fault: Fault::CannotDeserialize },
                    ),
                )
            },
            None => Some(
                Error::Provable(ProvableError { party: sender, fault: Fault::CannotDeserialize }),
            ),
        }
    }
}

/// The fault of the first slot, in the canonical order of the senders, with
/// which something is the matter.
pub open spec fn spec_slot_fault(parties: PartiesView, width: int, slots: Seq<Option<Seq<u8>>>) -> Option<
    Error,
> {
    let at = spec_first_index(
        |p: int| spec_examine_slot(parties, width, slots, p) is Some,
        0,
        parties.senders.len() as int,
    );
    if at < parties.senders.len() {
        spec_examine_slot(parties, width, slots, at)
    } else {
        None
    }
}

/// The scalars each sender contributed, by position: this party's own
/// contribution at its own position, the decoded payload elsewhere.
pub open spec fn spec_rows(parties: PartiesView, own: Seq<u64>, slots: Seq<Option<Seq<u8>>>) -> Seq<
    Seq<u64>,
> {
    Seq::new(
        parties.senders.len(),
        |p: int|
            if parties.senders[p] == parties.me {
                own
            } else {
                spec_decode_scalars(slots[p]->0)->0
            },
    )
}

/// The first scalar of every row.
pub open spec fn spec_column(rows: Seq<Seq<u64>>) -> Seq<u64> {
    Seq::new(rows.len(), |p: int| rows[p][0])
}

/// A copy of a list of scalars.
pub fn copy_scalars(values: &Vec<u64>) -> (copy: Vec<u64>)
    ensures
        copy@ == values@,
{
    let mut copy: Vec<u64> = Vec::new();
    let mut i: usize = 0;
    while i < values.len()
        invariant
            i <= values.len(),
            copy@ == values@.take(i as int),
        decreases values.len() - i,
    {
        copy.push(values[i]);
        proof {
            assert(values@.take(i + 1) =~= values@.take(i as int).push(values@[i as int]));
        }
        i = i + 1;
    }
    proof {
        assert(values@.take(i as int) =~= values@);
    }
    copy
}

/// The first scalar of every row, as a list.
pub(crate) fn first_column(rows: &Vec<Vec<u64>>) -> (column: Vec<u64>)
    requires
        forall|p: int| 0 <= p < rows@.len() ==> (#[trigger] rows@[p])@.len() >= 1,
    ensures
        column@ == spec_column(spec_rows_view(rows@)),
{
    let mut column: Vec<u64> = Vec::new();
    let mut p: usize = 0;
    while p < rows.len()
        invariant
            p <= rows.len(),
            forall|k: int| 0 <= k < rows@.len() ==> (#[trigger] rows@[k])@.len() >= 1,
            column@ == spec_column(spec_rows_view(rows@)).take(p as int),
        decreases rows.len() - p,
    {
        assert(rows@[p as int]@.len() >= 1);
        column.push(rows[p][0]);
        proof {
            let target = spec_column(spec_rows_view(rows@));
            assert(target.take(p + 1) =~= target.take(p as int).push(target[p as int]));
        }
        p = p + 1;
    }
    proof {
        let target = spec_column(spec_rows_view(rows@));
        assert(target.take(p as int) =~= target);
    }
    column
}

impl Parties {
    #[verifier::type_invariant]
    spec fn well_formed(self) -> bool {
        spec_parties_wf(self@)
    }

    /// Whether the parties are well formed. Every value is.
    pub open spec fn wf(&self) -> bool {
        spec_parties_wf(self@)
    }

    /// Recalls that the parties are well formed.
    pub fn recall(&self)
        ensures
            self.wf(),
    {
        proof {
            use_type_invariant(self);
        }
    }

    /// The parties of a run with the given senders and audience, seen from
    /// `me`. Fails if `me` is in neither set.
    pub fn new(me: u64, senders: ParticipantSet, audience: ParticipantSet) -> (r: Result<
        Parties,
        LocalError,
    >)
        ensures
            match r {
                Ok(parties) => parties.wf() && parties@ == (PartiesView {
                    me,
                    senders: senders@,
                    audience: audience@,
                }),
                Err(e) => e == LocalError::NotAParticipant && !senders@.contains(me)
                    && !audience@.contains(me),
            },
    {
        let sends = senders.contains(me);
        let listens = audience.contains(me);
        if sends || listens {
            Ok(Parties { me, senders, audience })
        } else {
            Err(LocalError::NotAParticipant)
        }
    }

    /// This party's identity.
    pub fn me(&self) -> (me: u64)
        ensures
            me == self@.me,
    {
        self.me
    }

    /// The parties that send.
    pub fn senders(&self) -> (senders: &ParticipantSet)
        ensures
            senders@ == self@.senders,
            is_canonical(self@.senders),
    {
        self.senders.recall_order();
        &self.senders
    }

    /// The parties that receive.
    pub fn audience(&self) -> (audience: &ParticipantSet)
        ensures
            audience@ == self@.audience,
            is_canonical(self@.audience),
    {
        self.audience.recall_order();
        &self.audience
    }

    /// Whether this party sends.
    pub fn sends(&self) -> (sends: bool)
        ensures
            sends == self@.senders.contains(self@.me),
    {
        self.senders.contains(self.me)
    }

    /// Whether this party receives.
    pub fn listens(&self) -> (listens: bool)
        ensures
            listens == self@.audience.contains(self@.me),
    {
        self.audience.contains(self.me)
    }

    /// A copy of the parties.
    pub fn duplicate(&self) -> (copy: Parties)
        ensures
            copy@ == self@,
    {
        proof {
            use_type_invariant(self);
        }
        Parties {
            me: self.me,
            senders: self.senders.duplicate(),
            audience: self.audience.duplicate(),
        }
    }

    /// Reads the slots of a round whose payloads hold `width` scalars each.
    /// Yields the fault of the first slot with which something is the
    /// matter, or else the scalars of every sender, with `own` standing at
    /// this party's own position.
    pub fn collect_rows(&self, width: usize, own: &Vec<u64>, received: &Vec<Option<Vec<u8>>>) -> (r:
        Result<Vec<Vec<u64>>, Error>)
        ensures
            match r {
                Ok(rows) => spec_slot_fault(self@, width as int, spec_slots(received@)) is None
                    && spec_rows_view(rows@) == spec_rows(self@, own@, spec_slots(received@)),
                Err(e) => spec_slot_fault(self@, width as int, spec_slots(received@)) == Some(e),
            },
    {
        let n = self.senders.len();
        let ghost slots = spec_slots(received@);
        let ghost bad = |p: int| spec_examine_slot(self@, width as int, slots, p) is Some;
        let ghost target = spec_rows(self@, own@, slots);
        proof {
            lemma_first_index(bad, 0, n as int);
        }
        let mut rows: Vec<Vec<u64>> = Vec::new();
        let mut p: usize = 0;
        while p < n
            invariant
                p <= n,
                n == self@.senders.len(),
                slots == spec_slots(received@),
                bad == |p: int| spec_examine_slot(self@, width as int, slots, p) is Some,
                target == spec_rows(self@, own@, slots),
                spec_first_index(bad, 0, n as int) == spec_first_index(bad, p as int, n as int),
                rows@.len() == p,
                forall|k: int| 0 <= k < p ==> (#[trigger] rows@[k])@ == target[k],
            decreases n - p,
        {
            let sender = self.senders.at(p);
            if sender == self.me {
                rows.push(copy_scalars(own));
                assert(!bad(p as int));
            } else {
                if p >= received.len() {
                    assert(bad(p as int));
                    return Err(Error::Local(LocalError::MissingMessage { party: sender }));
                }
                match &received[p] {
                    None => {
                        assert(bad(p as int));
                        return Err(Error::Local(LocalError::MissingMessage { party: sender }));
                    },
                    Some(payload) => {
                        assert(slots[p as int] == Some(payload@));
                        match decode_scalars(payload) {
                            Some(list) => {
                                if list.len() == width {
                                    assert(!bad(p as int));
                                    rows.push(list);
                                } else {
                                    assert(bad(p as int));
                                    return Err(
                                        Error::Provable(
                                            ProvableError {
                                                party: sender,
                                                fault: Fault::CannotDeserialize,
                                            },
                                        ),
                                    );
                                }
                            },
                            None => {
                                assert(bad(p as int));
                                return Err(
                                    Error::Provable(
                                        ProvableError {
                                            party: sender,
                                            fault: Fault::CannotDeserialize,
                                        },
                                    ),
                                );
                            },
                        }
                    },
                }
            }
            p = p + 1;
        }
        proof {
            assert(spec_rows_view(rows@) =~= target);
        }
        Ok(rows)
    }
}

/// When no slot is at fault and this party's own contribution has `width`
/// scalars, every row has `width` scalars.
pub proof fn lemma_rows_have_width(
    parties: PartiesView,
    width: int,
    own: Seq<u64>,
    slots: Seq<Option<Seq<u8>>>,
)
    requires
        spec_slot_fault(parties, width, slots) is None,
        own.len() == width,
    ensures
        spec_rows(parties, own, slots).len() == parties.senders.len(),
        forall|p: int|
            0 <= p < parties.senders.len() ==> (#[trigger] spec_rows(parties, own, slots)[p]).len()
                == width,
        forall|p: int|
            0 <= p < parties.senders.len() && parties.senders[p] != parties.me ==> p < slots.len()
                && (#[trigger] slots[p]) is Some && slots[p]->0.len() == 8 * width,
{
    lemma_no_slot_fault(parties, width, slots);
    assert forall|p: int| 0 <= p < parties.senders.len() implies (#[trigger] spec_rows(
        parties,
        own,
        slots,
    )[p]).len() == width by {
        assert(spec_examine_slot(parties, width, slots, p) is None);
    }
    assert forall|p: int|
        0 <= p < parties.senders.len() && parties.senders[p] != parties.me implies p < slots.len()
        && (#[trigger] slots[p]) is Some && slots[p]->0.len() == 8 * width by {
        assert(spec_examine_slot(parties, width, slots, p) is None);
    }
}

/// When no slot is at fault, every sender but this party has a payload in
/// its slot that decodes to `width` scalars.
pub proof fn lemma_no_slot_fault(parties: PartiesView, width: int, slots: Seq<Option<Seq<u8>>>)
    requires
        spec_slot_fault(parties, width, slots) is None,
    ensures
        forall|p: int|
            0 <= p < parties.senders.len() ==> #[trigger] spec_examine_slot(
                parties,
                width,
                slots,
                p,
            ) is None,
{
    let bad = |p: int| spec_examine_slot(parties, width, slots, p) is Some;
    lemma_first_index(bad, 0, parties.senders.len() as int);
    assert forall|p: int| 0 <= p < parties.senders.len() implies #[trigger] spec_examine_slot(
        parties,
        width,
        slots,
        p,
    ) is None by {
        assert(!bad(p));
    }
}

} // verus!
