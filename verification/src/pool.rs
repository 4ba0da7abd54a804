//! The ticket pool: one entry per ticket held, and its seeded permutation.

use crate::participant::Participant;
use rand::SeedableRng;
use rand::seq::SliceRandom;
use rand_chacha::ChaCha12Rng;
use vstd::prelude::*;
use vstd::seq_lib::lemma_multiset_commutative;
use vstd::seq_lib::to_multiset_build;
use vstd::seq_lib::to_multiset_contains;

verus! {

/// Every ticket of `tickets` names an entry of a list of `n` participants.
///
/// A ticket is the position of its owner in the participant list.
pub open spec fn valid_tickets(tickets: Seq<usize>, n: nat) -> bool {
    forall|k: int| 0 <= k < tickets.len() ==> tickets[k] < n
}

/// Tells whether every ticket of `tickets` names an entry of a list of
/// `participants` entries.
pub fn is_valid_pool(tickets: &Vec<usize>, participants: usize) -> (valid: bool)
    ensures
        valid == valid_tickets(tickets@, participants as nat),
{
    let mut k: usize = 0;
    while k < tickets.len()
        invariant
            k <= tickets.len(),
            valid_tickets(tickets@.take(k as int), participants as nat),
        decreases tickets.len() - k,
    {
        if tickets[k] >= participants {
            return false;
        }
        k += 1;
    }
    assert(tickets@.take(k as int) == tickets@);
    true
}

/// The tickets of one participant: `count` entries that all name `owner`.
pub open spec fn tickets_of(owner: usize, count: nat) -> Seq<usize> {
    Seq::new(count, |k: int| owner)
}

/// The pool before it is permuted: the tickets of the first participant,
/// then those of the second, and so on.
pub open spec fn ticket_pool(participants: Seq<Participant>) -> Seq<usize>
    decreases participants.len(),
{
    if participants.len() == 0 {
        Seq::empty()
    } else {
        ticket_pool(participants.drop_last()) + tickets_of(
            (participants.len() - 1) as usize,
            participants.last().tickets as nat,
        )
    }
}

/// Lays out the pool of tickets for `participants`.
pub fn build_pool(participants: &Vec<Participant>) -> (pool: Vec<usize>)
    ensures
        pool@ == ticket_pool(participants@),
{
    let mut pool: Vec<usize> = Vec::new();
    let mut i: usize = 0;
    while i < participants.len()
        invariant
            i <= participants.len(),
            pool@ == ticket_pool(participants@.take(i as int)),
        decreases participants.len() - i,
    {
        let count: u32 = participants[i].tickets;
        let mut k: u32 = 0;
        while k < count
            invariant
                k <= count,
                i < participants.len(),
                pool@ == ticket_pool(participants@.take(i as int)) + tickets_of(i, k as nat),
            decreases count - k,
        {
            pool.push(i);
            k += 1;
        }
        proof {
            let upto = participants@.take(i + 1);
            assert(upto.drop_last() == participants@.take(i as int));
        }
        i += 1;
    }
    assert(participants@.take(i as int) == participants@);
    pool
}

/// Every ticket of the pool names an entry of the list it was laid out for.
pub proof fn lemma_ticket_pool_valid(participants: Seq<Participant>)
    requires
        participants.len() <= usize::MAX,
    ensures
        valid_tickets(ticket_pool(participants), participants.len()),
    decreases participants.len(),
{
    if participants.len() > 0 {
        lemma_ticket_pool_valid(participants.drop_last());
    }
}

/// Among the tickets of one participant, the owner is named as often as
/// there are tickets, and nobody else is named.
pub proof fn lemma_tickets_of_one(owner: usize, count: nat, ticket: usize)
    ensures
        tickets_of(owner, count).to_multiset().count(ticket) == if ticket == owner {
            count
        } else {
            0
        },
    decreases count,
{
    broadcast use vstd::multiset::group_multiset_axioms;

    if count == 0 {
        assert(tickets_of(owner, count).to_multiset().len() == 0) by {
            vstd::seq_lib::to_multiset_len(tickets_of(owner, count));
        }
    } else {
        let fewer = tickets_of(owner, (count - 1) as nat);
        lemma_tickets_of_one(owner, (count - 1) as nat, ticket);
        assert(tickets_of(owner, count) =~= fewer.push(owner));
        to_multiset_build(fewer, owner);
    }
}

/// The pool holds exactly as many tickets of each participant as the
/// participant's entry says, and no ticket of anybody else.
pub proof fn lemma_ticket_pool_counts(participants: Seq<Participant>, ticket: usize)
    requires
        participants.len() <= usize::MAX,
    ensures
        ticket_pool(participants).to_multiset().count(ticket) == if ticket < participants.len() {
            participants[ticket as int].tickets as nat
        } else {
            0
        },
    decreases participants.len(),
{
    broadcast use vstd::multiset::group_multiset_axioms;

    if participants.len() == 0 {
        assert(ticket_pool(participants).to_multiset().len() == 0) by {
            vstd::seq_lib::to_multiset_len(ticket_pool(participants));
        }
    } else {
        let last = (participants.len() - 1) as usize;
        let before = ticket_pool(participants.drop_last());
        let own = tickets_of(last, participants.last().tickets as nat);
        lemma_ticket_pool_counts(participants.drop_last(), ticket);
        lemma_tickets_of_one(last, participants.last().tickets as nat, ticket);
        lemma_multiset_commutative(before, own);
    }
}

/// The pool is laid out in the order of the participant list: a ticket of
/// an earlier participant never stands behind a ticket of a later one.
pub proof fn lemma_ticket_pool_ordered(participants: Seq<Participant>)
    requires
        participants.len() <= usize::MAX,
    ensures
        forall|i: int, j: int|
            0 <= i <= j < ticket_pool(participants).len() ==> ticket_pool(participants)[i]
                <= ticket_pool(participants)[j],
    decreases participants.len(),
{
    if participants.len() > 0 {
        lemma_ticket_pool_ordered(participants.drop_last());
        lemma_ticket_pool_valid(participants.drop_last());
    }
}

/// A rearrangement of the pool still holds a ticket of exactly those
/// participants who hold at least one ticket.
pub proof fn lemma_rearranged_pool_holds_entrants(
    participants: Seq<Participant>,
    pool: Seq<usize>,
    ticket: usize,
)
    requires
        participants.len() <= usize::MAX,
        pool.to_multiset() == ticket_pool(participants).to_multiset(),
    ensures
        pool.contains(ticket) <==> {
            &&& ticket < participants.len()
            &&& participants[ticket as int].tickets > 0
        },
{
    lemma_ticket_pool_counts(participants, ticket);
    to_multiset_contains(pool, ticket);
}

/// A rearrangement of valid tickets holds valid tickets only.
pub proof fn lemma_rearranged_tickets_valid(before: Seq<usize>, after: Seq<usize>, n: nat)
    requires
        valid_tickets(before, n),
        after.to_multiset() == before.to_multiset(),
    ensures
        valid_tickets(after, n),
{
    assert forall|k: int| 0 <= k < after.len() implies after[k] < n by {
        let t = after[k];
        to_multiset_contains(after, t);
        to_multiset_contains(before, t);
    }
}

/// The order in which `SliceRandom::shuffle` of the `rand` crate leaves
/// `pool` when it draws from a `ChaCha12Rng` made by `seed_from_u64(seed)`.
pub uninterp spec fn chacha12_shuffle(pool: Seq<usize>, seed: u64) -> Seq<usize>;

/// Calls `rand::seq::SliceRandom::shuffle` on `pool` with a
/// `rand_chacha::ChaCha12Rng` seeded by `SeedableRng::seed_from_u64`.
///
/// Trusted: the generator is a function of the seed alone and the shuffle
/// only swaps entries of the slice, so the pool is left in an order fixed by
/// its former content and the seed, holding the same tickets as before.
#[verifier::external_body]
fn shuffle_seeded(pool: &mut Vec<usize>, seed: u64)
    ensures
        final(pool)@ == chacha12_shuffle(old(pool)@, seed),
        final(pool)@.to_multiset() == old(pool)@.to_multiset(),
{
    pool.shuffle(&mut ChaCha12Rng::seed_from_u64(seed));
}

/// Lays out the pool for `participants` and permutes it by `seed`.
///
/// The result depends on the list and the seed alone: whoever knows both
/// can derive the same order again.
pub fn shuffled_pool(participants: &Vec<Participant>, seed: u64) -> (pool: Vec<usize>)
    ensures
        pool@ == chacha12_shuffle(ticket_pool(participants@), seed),
        pool@.to_multiset() == ticket_pool(participants@).to_multiset(),
        valid_tickets(pool@, participants@.len()),
{
    let mut pool = build_pool(participants);
    shuffle_seeded(&mut pool, seed);
    proof {
        assert(participants@.len() == participants.len());
        lemma_ticket_pool_valid(participants@);
        lemma_rearranged_tickets_valid(
            ticket_pool(participants@),
            pool@,
            participants@.len(),
        );
    }
    pool
}

} // verus!
