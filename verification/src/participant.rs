//! The people taking part in the raffle.

use std::collections::HashSet;
use vstd::prelude::*;

verus! {

broadcast use vstd::std_specs::hash::group_hash_axioms;

/// One entrant of the raffle, as read from the entry list.
#[derive(Clone, Copy, Debug, PartialEq, Eq, Hash, Structural)]
pub struct Participant {
    /// Identifier under which the participant is reported as a winner.
    pub id: u32,
    /// Number of tickets held; each ticket is one chance in the draw.
    pub tickets: u32,
    /// Whether the participant handed in a submission.
    pub submitted: bool,
    /// Whether the participant already won a prize before this raffle.
    pub won_prize: bool,
}

impl Participant {
    /// A participant may win a consolation prize only after submitting and
    /// without having won a prize before.
    pub open spec fn eligible(self) -> bool {
        self.submitted && !self.won_prize
    }

    /// Executable form of [`Participant::eligible`].
    pub fn is_eligible(&self) -> (b: bool)
        ensures
            b == self.eligible(),
    {
        self.submitted && !self.won_prize
    }
}

/// No two entries of the list share an identifier.
pub open spec fn distinct_ids(participants: Seq<Participant>) -> bool {
    forall|i: int, j: int|
        0 <= i < j < participants.len() ==> participants[i].id != participants[j].id
}

/// Tells whether no two entries of the list share an identifier.
pub fn has_distinct_ids(participants: &Vec<Participant>) -> (distinct: bool)
    ensures
        distinct == distinct_ids(participants@),
{
    let mut seen: HashSet<u32> = HashSet::new();
    let mut i: usize = 0;
    while i < participants.len()
        invariant
            i <= participants.len(),
            distinct_ids(participants@.take(i as int)),
            forall|id: u32|
                seen@.contains(id) <==> exists|j: int|
                    0 <= j < i && (#[trigger] participants@[j]).id == id,
        decreases participants.len() - i,
    {
        let id: u32 = participants[i].id;
        if seen.contains(&id) {
            return false;
        }
        seen.insert(id);
        assert(distinct_ids(participants@.take(i + 1)));
        i += 1;
    }
    assert(participants@.take(i as int) == participants@);
    true
}

} // verus!
