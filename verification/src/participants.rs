//! Sets of participant identities in canonical order.

use vstd::prelude::*;
use crate::sessions::error::LocalError;

verus! {

/// Whether a sequence of identities is in canonical order: strictly
/// increasing, hence free of repetitions.
pub open spec fn is_canonical(s: Seq<u64>) -> bool {
    forall|i: int, j: int| 0 <= i < j < s.len() ==> s[i] < s[j]
}

/// Whether a sequence names some identity twice.
pub open spec fn has_duplicates(s: Seq<u64>) -> bool {
    exists|i: int, j: int| 0 <= i < j < s.len() && s[i] == s[j]
}

/// The position of `id` in a canonical sequence that holds it.
pub open spec fn spec_position(s: Seq<u64>, id: u64) -> int {
    choose|i: int| 0 <= i < s.len() && s[i] == id
}

/// In a canonical sequence an identity sits at one position only.
pub proof fn lemma_position_is_unique(s: Seq<u64>, i: int)
    requires
        is_canonical(s),
        0 <= i < s.len(),
    ensures
        spec_position(s, s[i]) == i,
        s.contains(s[i]),
{
    let j = spec_position(s, s[i]);
    if j < i {
        assert(s[j] < s[i]);
    }
    if i < j {
        assert(s[i] < s[j]);
    }
}

/// A set of participants. Its view is the sequence of its identities in
/// canonical order; the position of an identity in that sequence is the
/// party's index wherever per-party values are listed.
#[derive(Debug)]
pub struct ParticipantSet {
    ids: Vec<u64>,
}

impl View for ParticipantSet {
    type V = Seq<u64>;

    closed spec fn view(&self) -> Seq<u64> {
        self.ids@
    }
}

/// Two canonical sequences with the same members are the same sequence: the
/// order in which identities were listed leaves no trace.
pub proof fn lemma_canonical_order_is_unique(a: Seq<u64>, b: Seq<u64>)
    requires
        is_canonical(a),
        is_canonical(b),
        forall|x: u64| a.contains(x) <==> b.contains(x),
    ensures
        a == b,
    decreases a.len(),
{
    if a.len() == 0 {
        if b.len() > 0 {
            assert(b.contains(b[0]));
        }
        assert(a =~= b);
    } else {
        assert(a.contains(a.last()));
        assert(b.len() > 0);
        assert(b.contains(b.last()));
        let ia = choose|i: int| 0 <= i < a.len() && a[i] == b.last();
        let ib = choose|i: int| 0 <= i < b.len() && b[i] == a.last();
        assert(a.last() == b.last());
        let a0 = a.drop_last();
        let b0 = b.drop_last();
        assert forall|x: u64| a0.contains(x) <==> b0.contains(x) by {
            if a0.contains(x) {
                let i = choose|i: int| 0 <= i < a0.len() && a0[i] == x;
                assert(a[i] == x);
                assert(a.contains(x));
                let j = choose|j: int| 0 <= j < b.len() && b[j] == x;
                assert(j < b.len() - 1);
                assert(b0[j] == x);
            }
            if b0.contains(x) {
                let i = choose|i: int| 0 <= i < b0.len() && b0[i] == x;
                assert(b[i] == x);
                assert(b.contains(x));
                let j = choose|j: int| 0 <= j < a.len() && a[j] == x;
                assert(j < a.len() - 1);
                assert(a0[j] == x);
            }
        }
        lemma_canonical_order_is_unique(a0, b0);
        assert(a =~= a0.push(a.last()));
        assert(b =~= b0.push(b.last()));
    }
}

impl ParticipantSet {
    #[verifier::type_invariant]
    spec fn canonical(self) -> bool {
        is_canonical(self.ids@)
    }

    /// Builds the set of the identities listed in `ids`. A list that names an
    /// identity twice is rejected; otherwise the set has exactly the listed
    /// members, in canonical order.
    pub fn new(ids: &Vec<u64>) -> (r: Result<ParticipantSet, LocalError>)
        ensures
            has_duplicates(ids@) <==> r is Err,
            r matches Err(e) ==> e == LocalError::DuplicateIdentity,
            r matches Ok(set) ==> {
                &&& is_canonical(set@)
                &&& set@.len() == ids@.len()
                &&& forall|x: u64| set@.contains(x) <==> ids@.contains(x)
            },
    {
        let mut sorted: Vec<u64> = Vec::new();
        let mut i: usize = 0;
        while i < ids.len()
            invariant
                i <= ids.len(),
                is_canonical(sorted@),
                sorted@.len() == i,
                forall|x: u64|
                    #![trigger sorted@.contains(x)]
                    #![trigger ids@.take(i as int).contains(x)]
                    sorted@.contains(x) <==> ids@.take(i as int).contains(x),
                !has_duplicates(ids@.take(i as int)),
            decreases ids.len() - i,
        {
            let id = ids[i];
            let mut pos: usize = 0;
            while pos < sorted.len() && sorted[pos] < id
                invariant
                    pos <= sorted.len(),
                    forall|k: int| 0 <= k < pos ==> sorted@[k] < id,
                decreases sorted.len() - pos,
            {
                pos = pos + 1;
            }
            let ghost before = sorted@;
            let ghost seen = ids@.take(i as int);
            if pos < sorted.len() && sorted[pos] == id {
                proof {
                    assert(before.contains(id));
                    assert(seen.contains(id));
                    let j = choose|j: int| 0 <= j < seen.len() && seen[j] == id;
                    assert(ids@[j] == ids@[i as int] && j < i);
                }
                return Err(LocalError::DuplicateIdentity);
            }
            sorted.insert(pos, id);
            proof {
                let after = sorted@;
                let next = ids@.take(i + 1);
                assert(after == before.insert(pos as int, id));
                assert forall|a: int, b: int| 0 <= a < b < after.len() implies after[a]
                    < after[b] by {
                    if a < pos && b > pos {
                        assert(after[a] == before[a] && after[b] == before[b - 1]);
                    }
                }
                assert(!before.contains(id)) by {
                    if before.contains(id) {
                        let k = choose|k: int| 0 <= k < before.len() && before[k] == id;
                        if k > pos {
                            assert(before[pos as int] < before[k]);
                        }
                    }
                }
                assert forall|x: u64| after.contains(x) <==> next.contains(x) by {
                    if after.contains(x) {
                        let k = choose|k: int| 0 <= k < after.len() && after[k] == x;
                        if k == pos {
                            assert(next[i as int] == x);
                        } else {
                            let k0 = if k < pos { k } else { k - 1 };
                            assert(before[k0] == x);
                            assert(before.contains(x));
                            let j = choose|j: int| 0 <= j < seen.len() && seen[j] == x;
                            assert(next[j] == x);
                        }
                    }
                    if next.contains(x) {
                        let j = choose|j: int| 0 <= j < next.len() && next[j] == x;
                        if j == i {
                            assert(after[pos as int] == x);
                        } else {
                            assert(j < i);
                            assert(seen[j] == x);
                            assert(seen.contains(x));
                            assert(before.contains(x));
                            let k = choose|k: int| 0 <= k < before.len() && before[k] == x;
                            let k1 = if k < pos { k } else { k + 1 };
                            assert(after[k1] == x);
                        }
                    }
                }
                assert(!has_duplicates(next)) by {
                    if has_duplicates(next) {
                        let (a, b) = choose|a: int, b: int|
                            0 <= a < b < next.len() && next[a] == next[b];
                        if b == i {
                            assert(seen[a] == id);
                            assert(seen.contains(id));
                        } else {
                            assert(seen[a] == seen[b]);
                        }
                    }
                }
            }
            i = i + 1;
        }
        proof {
            assert(ids@.take(i as int) =~= ids@);
        }
        Ok(ParticipantSet { ids: sorted })
    }

    /// Recalls that the members are in canonical order.
    pub fn recall_order(&self)
        ensures
            is_canonical(self@),
    {
        proof {
            use_type_invariant(self);
        }
    }

    /// The number of participants.
    pub fn len(&self) -> (n: usize)
        ensures
            n == self@.len(),
    {
        self.ids.len()
    }

    /// The identity at position `index` of the canonical order.
    pub fn get(&self, index: usize) -> (id: Option<u64>)
        ensures
            id == (if index < self@.len() {
                Some(self@[index as int])
            } else {
                None
            }),
    {
        if index < self.ids.len() {
            Some(self.ids[index])
        } else {
            None
        }
    }

    /// The identity at position `index`, which must exist.
    pub fn at(&self, index: usize) -> (id: u64)
        requires
            index < self@.len(),
        ensures
            id == self@[index as int],
            is_canonical(self@),
            self@.contains(id),
            spec_position(self@, id) == index,
    {
        proof {
            use_type_invariant(self);
            lemma_position_is_unique(self.ids@, index as int);
        }
        self.ids[index]
    }

    /// The position of `id` in the canonical order, if it is a member.
    pub fn position(&self, id: u64) -> (r: Option<usize>)
        ensures
            is_canonical(self@),
            r matches Some(index) ==> index < self@.len() && self@[index as int] == id && index
                == spec_position(self@, id),
            r is None ==> !self@.contains(id),
            r is Some <==> self@.contains(id),
    {
        proof {
            use_type_invariant(self);
        }
        let mut index: usize = 0;
        while index < self.ids.len()
            invariant
                index <= self.ids.len(),
                is_canonical(self.ids@),
                forall|k: int| 0 <= k < index ==> self.ids@[k] != id,
            decreases self.ids.len() - index,
        {
            if self.ids[index] == id {
                proof {
                    lemma_position_is_unique(self.ids@, index as int);
                }
                return Some(index);
            }
            index = index + 1;
        }
        None
    }

    /// Whether `id` is a member.
    pub fn contains(&self, id: u64) -> (found: bool)
        ensures
            found == self@.contains(id),
            is_canonical(self@),
    {
        match self.position(id) {
            Some(index) => {
                assert(self@[index as int] == id);
                true
            },
            None => false,
        }
    }

    /// The members in canonical order.
    pub fn to_vec(&self) -> (ids: Vec<u64>)
        ensures
            ids@ == self@,
            is_canonical(self@),
    {
        proof {
            use_type_invariant(self);
        }
        let mut ids: Vec<u64> = Vec::new();
        let mut i: usize = 0;
        while i < self.ids.len()
            invariant
                i <= self.ids.len(),
                ids@ == self.ids@.take(i as int),
            decreases self.ids.len() - i,
        {
            ids.push(self.ids[i]);
            proof {
                assert(self.ids@.take(i + 1) =~= self.ids@.take(i as int).push(self.ids@[i as int]));
            }
            i = i + 1;
        }
        proof {
            assert(self.ids@.take(i as int) =~= self.ids@);
        }
        ids
    }

    /// The members other than `id`, in canonical order.
    pub fn without(&self, id: u64) -> (others: Vec<u64>)
        ensures
            is_canonical(others@),
            forall|x: u64| others@.contains(x) <==> (self@.contains(x) && x != id),
    {
        proof {
            use_type_invariant(self);
        }
        let mut others: Vec<u64> = Vec::new();
        let mut i: usize = 0;
        while i < self.ids.len()
            invariant
                i <= self.ids.len(),
                is_canonical(self.ids@),
                is_canonical(others@),
                forall|k: int| 0 <= k < others@.len() ==> self.ids@.take(i as int).contains(#[trigger] others@[k]),
                forall|x: u64|
                    #![trigger others@.contains(x)]
                    others@.contains(x) <==> (self.ids@.take(i as int).contains(x) && x != id),
            decreases self.ids.len() - i,
        {
            let ghost seen = self.ids@.take(i as int);
            let ghost next = self.ids@.take(i + 1);
            let ghost before = others@;
            let x = self.ids[i];
            proof {
                assert(next =~= seen.push(x));
                assert forall|y: u64| next.contains(y) <==> (seen.contains(y) || y == x) by {
                    if next.contains(y) {
                        let k = choose|k: int| 0 <= k < next.len() && next[k] == y;
                        if k < i {
                            assert(seen[k] == y);
                        }
                    }
                    if seen.contains(y) {
                        let k = choose|k: int| 0 <= k < seen.len() && seen[k] == y;
                        assert(next[k] == y);
                    }
                    if y == x {
                        assert(next[i as int] == y);
                    }
                }
            }
            if x != id {
                others.push(x);
                proof {
                    let after = others@;
                    assert(after =~= before.push(x));
                    assert forall|a: int, b: int| 0 <= a < b < after.len() implies after[a]
                        < after[b] by {
                        if b == after.len() - 1 {
                            assert(seen.contains(before[a]));
                            let k = choose|k: int| 0 <= k < seen.len() && seen[k] == before[a];
                            assert(self.ids@[k] < self.ids@[i as int]);
                        }
                    }
                    assert forall|k: int| 0 <= k < after.len() implies next.contains(
                        #[trigger] after[k],
                    ) by {
                        if k < before.len() {
                            assert(seen.contains(before[k]));
                        }
                    }
                    assert forall|y: u64| #![trigger after.contains(y)] after.contains(y) <==> (
                    next.contains(y) && y != id) by {
                        if after.contains(y) {
                            let k = choose|k: int| 0 <= k < after.len() && after[k] == y;
                            if k < before.len() {
                                assert(before[k] == y);
                                assert(before.contains(y));
                            }
                        }
                        if next.contains(y) && y != id {
                            if y == x {
                                assert(after[after.len() - 1] == y);
                            } else {
                                assert(before.contains(y));
                                let k = choose|k: int| 0 <= k < before.len() && before[k] == y;
                                assert(after[k] == y);
                            }
                        }
                    }
                }
            }
            i = i + 1;
        }
        proof {
            assert(self.ids@.take(i as int) =~= self.ids@);
        }
        others
    }

    /// Whether the two sets have the same members.
    pub fn same_as(&self, other: &ParticipantSet) -> (same: bool)
        ensures
            same == (self@ == other@),
    {
        if self.ids.len() != other.ids.len() {
            return false;
        }
        let mut i: usize = 0;
        while i < self.ids.len()
            invariant
                i <= self.ids.len(),
                self.ids@.len() == other.ids@.len(),
                forall|k: int| 0 <= k < i ==> self.ids@[k] == other.ids@[k],
            decreases self.ids.len() - i,
        {
            if self.ids[i] != other.ids[i] {
                return false;
            }
            i = i + 1;
        }
        proof {
            assert(self.ids@ =~= other.ids@);
        }
        true
    }

    /// A copy of the set.
    pub fn duplicate(&self) -> (copy: ParticipantSet)
        ensures
            copy@ == self@,
            is_canonical(self@),
    {
        proof {
            use_type_invariant(self);
        }
        ParticipantSet { ids: self.to_vec() }
    }
}

} // verus!
