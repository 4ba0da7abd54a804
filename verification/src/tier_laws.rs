//! What holds of every tier.

use crate::draw::judge;
use crate::draw::run_tier;
use crate::draw::Drawn;
use crate::draw::Eligibility;
use crate::participant::distinct_ids;
use crate::participant::Participant;
use crate::pool::valid_tickets;
use vstd::prelude::*;
use vstd::set_lib::lemma_len_subset;

verus! {

/// Somebody with identifier `id` owns one of `tickets` and is let in by
/// `rule`.
pub open spec fn holds_ticket(
    participants: Seq<Participant>,
    tickets: Seq<usize>,
    id: u32,
    rule: Eligibility,
) -> bool {
    exists|k: int|
        0 <= k < tickets.len() && participants[(#[trigger] tickets[k]) as int].id == id
            && rule.admits(participants[tickets[k] as int])
}

/// The identifiers that can still win in a tier: those that have not won
/// and own a ticket of the queue by which the rule lets them in.
pub open spec fn candidates(
    participants: Seq<Participant>,
    queue: Seq<usize>,
    taken: Set<u32>,
    rule: Eligibility,
) -> Set<u32> {
    Set::new(|id: u32| !taken.contains(id) && holds_ticket(participants, queue, id, rule))
}

/// A tier finds no more winners than it was asked for, and stops short only
/// when its queue is used up. Its winners are new, each appears once, and
/// together with those who had won before they are all who have won after
/// it.
pub proof fn lemma_tier_winners_are_new(
    participants: Seq<Participant>,
    queue: Seq<usize>,
    taken: Set<u32>,
    rule: Eligibility,
    count: nat,
)
    ensures
        ({
            let run = run_tier(participants, queue, taken, rule, count);
            &&& run.winners.len() <= count
            &&& run.winners.len() < count ==> run.rest.len() == 0
            &&& run.winners.no_duplicates()
            &&& forall|i: int| 0 <= i < run.winners.len() ==> !taken.contains(run.winners[i])
            &&& forall|id: u32|
                #![trigger run.taken.contains(id)]
                #![trigger run.winners.contains(id)]
                run.taken.contains(id) <==> taken.contains(id) || run.winners.contains(id)
        }),
    decreases queue.len(),
{
    let run = run_tier(participants, queue, taken, rule, count);
    if count > 0 && queue.len() > 0 {
        let tail = queue.drop_first();
        match judge(participants, queue[0], taken, rule) {
            Drawn::Burned | Drawn::Rejected(_) => {
                lemma_tier_winners_are_new(participants, tail, taken, rule, count);
            },
            Drawn::Winner(id) => {
                let later = run_tier(
                    participants,
                    tail,
                    taken.insert(id),
                    rule,
                    (count - 1) as nat,
                );
                lemma_tier_winners_are_new(
                    participants,
                    tail,
                    taken.insert(id),
                    rule,
                    (count - 1) as nat,
                );
                assert(run.winners[0] == id);
                assert forall|w: u32|
                    run.taken.contains(w) <==> taken.contains(w) || run.winners.contains(w) by {
                    if later.winners.contains(w) {
                        let i = choose|i: int|
                            0 <= i < later.winners.len() && later.winners[i] == w;
                        assert(run.winners[i + 1] == w);
                    }
                }
            },
        }
    }
}

/// The places in `queue` of the tickets that win in a tier, in the order
/// in which they win.
pub open spec fn winning_places(
    participants: Seq<Participant>,
    queue: Seq<usize>,
    taken: Set<u32>,
    rule: Eligibility,
    count: nat,
) -> Seq<int>
    decreases queue.len(),
{
    if count == 0 || queue.len() == 0 {
        Seq::empty()
    } else {
        match judge(participants, queue[0], taken, rule) {
            Drawn::Winner(id) => seq![0int] + winning_places(
                participants,
                queue.drop_first(),
                taken.insert(id),
                rule,
                (count - 1) as nat,
            ).map_values(|place: int| place + 1),
            _ => winning_places(participants, queue.drop_first(), taken, rule, count).map_values(
                |place: int| place + 1,
            ),
        }
    }
}

/// Winners are recorded in the order in which they are drawn: each winner
/// owns the ticket at the winning place of the same rank, and the winning
/// places run from the front of the queue to its back.
pub proof fn lemma_winners_in_draw_order(
    participants: Seq<Participant>,
    queue: Seq<usize>,
    taken: Set<u32>,
    rule: Eligibility,
    count: nat,
)
    ensures
        ({
            let run = run_tier(participants, queue, taken, rule, count);
            let places = winning_places(participants, queue, taken, rule, count);
            &&& places.len() == run.winners.len()
            &&& forall|i: int|
                0 <= i < places.len() ==> {
                    &&& 0 <= #[trigger] places[i] < queue.len()
                    &&& participants[queue[places[i]] as int].id == run.winners[i]
                }
            &&& forall|i: int, j: int|
                0 <= i < j < places.len() ==> #[trigger] places[i] < #[trigger] places[j]
        }),
    decreases queue.len(),
{
    if count > 0 && queue.len() > 0 {
        let tail = queue.drop_first();
        let run = run_tier(participants, queue, taken, rule, count);
        let places = winning_places(participants, queue, taken, rule, count);
        match judge(participants, queue[0], taken, rule) {
            Drawn::Winner(id) => {
                let later = winning_places(
                    participants,
                    tail,
                    taken.insert(id),
                    rule,
                    (count - 1) as nat,
                );
                lemma_winners_in_draw_order(
                    participants,
                    tail,
                    taken.insert(id),
                    rule,
                    (count - 1) as nat,
                );
                assert forall|i: int| 1 <= i < places.len() implies #[trigger] places[i]
                    == later[i - 1] + 1 by {}
                assert forall|i: int| 0 <= i < places.len() implies {
                    &&& 0 <= #[trigger] places[i] < queue.len()
                    &&& participants[queue[places[i]] as int].id == run.winners[i]
                } by {
                    if i > 0 {
                        assert(places[i] == later[i - 1] + 1);
                        assert(queue[places[i]] == tail[later[i - 1]]);
                    }
                }
            },
            _ => {
                let later = winning_places(participants, tail, taken, rule, count);
                lemma_winners_in_draw_order(participants, tail, taken, rule, count);
                assert forall|i: int| 0 <= i < places.len() implies {
                    &&& 0 <= #[trigger] places[i] < queue.len()
                    &&& participants[queue[places[i]] as int].id == run.winners[i]
                } by {
                    assert(places[i] == later[i] + 1);
                    assert(queue[places[i]] == tail[later[i]]);
                }
            },
        }
    }
}

/// With each winner of a tier the number of those who have won grows by
/// one.
pub proof fn lemma_tier_counts_winners(
    participants: Seq<Participant>,
    queue: Seq<usize>,
    taken: Set<u32>,
    rule: Eligibility,
    count: nat,
)
    requires
        taken.finite(),
    ensures
        ({
            let run = run_tier(participants, queue, taken, rule, count);
            &&& run.taken.finite()
            &&& run.taken.len() == taken.len() + run.winners.len()
        }),
    decreases queue.len(),
{
    if count > 0 && queue.len() > 0 {
        let tail = queue.drop_first();
        match judge(participants, queue[0], taken, rule) {
            Drawn::Winner(id) => {
                lemma_tier_counts_winners(
                    participants,
                    tail,
                    taken.insert(id),
                    rule,
                    (count - 1) as nat,
                );
            },
            _ => {
                lemma_tier_counts_winners(participants, tail, taken, rule, count);
            },
        }
    }
}

/// Every winner of a tier owns a ticket of its queue and is let in by its
/// rule. Every ticket set aside comes from the queue and belongs to somebody
/// whom the rule turns away and who had not won before. What is left of the
/// queue comes from the queue. A tier open to everybody sets nothing aside.
pub proof fn lemma_tier_draws_from_queue(
    participants: Seq<Participant>,
    queue: Seq<usize>,
    taken: Set<u32>,
    rule: Eligibility,
    count: nat,
)
    ensures
        ({
            let run = run_tier(participants, queue, taken, rule, count);
            &&& forall|i: int|
                0 <= i < run.winners.len() ==> holds_ticket(
                    participants,
                    queue,
                    #[trigger] run.winners[i],
                    rule,
                )
            &&& forall|j: int|
                0 <= j < run.skipped.len() ==> {
                    &&& queue.contains(#[trigger] run.skipped[j])
                    &&& !rule.admits(participants[run.skipped[j] as int])
                    &&& !taken.contains(participants[run.skipped[j] as int].id)
                }
            &&& forall|k: int| 0 <= k < run.rest.len() ==> queue.contains(#[trigger] run.rest[k])
            &&& rule == Eligibility::Any ==> run.skipped.len() == 0
        }),
    decreases queue.len(),
{
    let run = run_tier(participants, queue, taken, rule, count);
    if count == 0 || queue.len() == 0 {
        assert forall|k: int| 0 <= k < run.rest.len() implies queue.contains(
            #[trigger] run.rest[k],
        ) by {
            assert(queue[k] == run.rest[k]);
        }
    } else {
        let tail = queue.drop_first();
        let first = judge(participants, queue[0], taken, rule);
        let later = match first {
            Drawn::Winner(id) => run_tier(
                participants,
                tail,
                taken.insert(id),
                rule,
                (count - 1) as nat,
            ),
            _ => run_tier(participants, tail, taken, rule, count),
        };
        match first {
            Drawn::Winner(id) => lemma_tier_draws_from_queue(
                participants,
                tail,
                taken.insert(id),
                rule,
                (count - 1) as nat,
            ),
            _ => lemma_tier_draws_from_queue(participants, tail, taken, rule, count),
        }
        assert forall|t: usize| tail.contains(t) implies queue.contains(t) by {
            let k = choose|k: int| 0 <= k < tail.len() && tail[k] == t;
            assert(queue[k + 1] == t);
        }
        assert forall|id: u32| holds_ticket(participants, tail, id, rule) implies holds_ticket(
            participants,
            queue,
            id,
            rule,
        ) by {
            let k = choose|k: int|
                0 <= k < tail.len() && participants[(#[trigger] tail[k]) as int].id == id
                    && rule.admits(participants[tail[k] as int]);
            assert(queue[k + 1] == tail[k]);
        }
        assert(queue.contains(queue[0]));
        assert(run.rest == later.rest);
        assert forall|i: int| 0 <= i < run.winners.len() implies holds_ticket(
            participants,
            queue,
            #[trigger] run.winners[i],
            rule,
        ) by {
            match first {
                Drawn::Winner(id) => {
                    assert(run.winners == seq![id] + later.winners);
                    if i == 0 {
                        assert(participants[queue[0] as int].id == id);
                    } else {
                        assert(run.winners[i] == later.winners[i - 1]);
                    }
                },
                _ => {
                    assert(run.winners == later.winners);
                },
            }
        }
        assert forall|j: int| 0 <= j < run.skipped.len() implies {
            &&& queue.contains(#[trigger] run.skipped[j])
            &&& !rule.admits(participants[run.skipped[j] as int])
            &&& !taken.contains(participants[run.skipped[j] as int].id)
        } by {
            match first {
                Drawn::Rejected(t) => {
                    assert(run.skipped == seq![t] + later.skipped);
                    if j > 0 {
                        assert(run.skipped[j] == later.skipped[j - 1]);
                    }
                },
                _ => {
                    assert(run.skipped == later.skipped);
                },
            }
        }
    }
}

/// No ticket is lost in a tier: each ticket of the queue belongs to
/// somebody who has won by the end of the tier, or was set aside, or is
/// still in the queue.
pub proof fn lemma_tier_keeps_tickets(
    participants: Seq<Participant>,
    queue: Seq<usize>,
    taken: Set<u32>,
    rule: Eligibility,
    count: nat,
)
    ensures
        ({
            let run = run_tier(participants, queue, taken, rule, count);
            forall|k: int|
                0 <= k < queue.len() ==> {
                    ||| run.taken.contains(participants[(#[trigger] queue[k]) as int].id)
                    ||| run.skipped.contains(queue[k])
                    ||| run.rest.contains(queue[k])
                }
        }),
    decreases queue.len(),
{
    let run = run_tier(participants, queue, taken, rule, count);
    if count > 0 && queue.len() > 0 {
        let tail = queue.drop_first();
        let first = judge(participants, queue[0], taken, rule);
        let later = match first {
            Drawn::Winner(id) => run_tier(
                participants,
                tail,
                taken.insert(id),
                rule,
                (count - 1) as nat,
            ),
            _ => run_tier(participants, tail, taken, rule, count),
        };
        match first {
            Drawn::Winner(id) => {
                lemma_tier_keeps_tickets(
                    participants,
                    tail,
                    taken.insert(id),
                    rule,
                    (count - 1) as nat,
                );
                lemma_tier_winners_are_new(
                    participants,
                    tail,
                    taken.insert(id),
                    rule,
                    (count - 1) as nat,
                );
            },
            _ => {
                lemma_tier_keeps_tickets(participants, tail, taken, rule, count);
                lemma_tier_winners_are_new(participants, tail, taken, rule, count);
            },
        }
        assert forall|k: int| 0 <= k < queue.len() implies {
            ||| run.taken.contains(participants[(#[trigger] queue[k]) as int].id)
            ||| run.skipped.contains(queue[k])
            ||| run.rest.contains(queue[k])
        } by {
            if k == 0 {
                if first is Rejected {
                    assert(run.skipped[0] == queue[0]);
                }
            } else {
                assert(tail[k - 1] == queue[k]);
                if first is Rejected && later.skipped.contains(queue[k]) {
                    let j = choose|j: int|
                        0 <= j < later.skipped.len() && later.skipped[j] == queue[k];
                    assert(run.skipped[j + 1] == queue[k]);
                }
            }
        }
    }
}

/// Among participants with distinct identifiers, nobody whose ticket a
/// tier set aside has won by the end of that tier.
pub proof fn lemma_skipped_owners_have_not_won(
    participants: Seq<Participant>,
    queue: Seq<usize>,
    taken: Set<u32>,
    rule: Eligibility,
    count: nat,
)
    requires
        distinct_ids(participants),
        valid_tickets(queue, participants.len()),
    ensures
        ({
            let run = run_tier(participants, queue, taken, rule, count);
            forall|j: int|
                0 <= j < run.skipped.len() ==> !run.taken.contains(
                    participants[(#[trigger] run.skipped[j]) as int].id,
                )
        }),
{
    lemma_tier_winners_are_new(participants, queue, taken, rule, count);
    lemma_tier_draws_from_queue(participants, queue, taken, rule, count);
}

/// A tier that runs on two queues laid end to end does what it does on the
/// first queue, and then, for the winners still missing, what it does on the
/// second: not a single ticket of the second queue is looked at before the
/// first queue is used up.
pub proof fn lemma_tier_on_joined_queues(
    participants: Seq<Participant>,
    front: Seq<usize>,
    back: Seq<usize>,
    taken: Set<u32>,
    rule: Eligibility,
    count: nat,
)
    ensures
        ({
            let whole = run_tier(participants, front + back, taken, rule, count);
            let first = run_tier(participants, front, taken, rule, count);
            let second = run_tier(
                participants,
                back,
                first.taken,
                rule,
                (count - first.winners.len()) as nat,
            );
            &&& whole.winners == first.winners + second.winners
            &&& whole.skipped == first.skipped + second.skipped
            &&& whole.rest == first.rest + second.rest
            &&& whole.taken == second.taken
        }),
    decreases front.len(),
{
    if count > 0 && front.len() > 0 {
        let tail = front.drop_first();
        assert((front + back).drop_first() == tail + back);
        match judge(participants, front[0], taken, rule) {
            Drawn::Burned | Drawn::Rejected(_) => {
                lemma_tier_on_joined_queues(participants, tail, back, taken, rule, count);
            },
            Drawn::Winner(id) => {
                lemma_tier_on_joined_queues(
                    participants,
                    tail,
                    back,
                    taken.insert(id),
                    rule,
                    (count - 1) as nat,
                );
            },
        }
    }
}

/// There are no more candidates than tickets.
pub proof fn lemma_candidates_finite(
    participants: Seq<Participant>,
    queue: Seq<usize>,
    taken: Set<u32>,
    rule: Eligibility,
)
    ensures
        candidates(participants, queue, taken, rule).finite(),
        candidates(participants, queue, taken, rule).len() <= queue.len(),
    decreases queue.len(),
{
    let all = candidates(participants, queue, taken, rule);
    if queue.len() == 0 {
        assert(all =~= Set::<u32>::empty());
    } else {
        let front = queue.drop_last();
        let fewer = candidates(participants, front, taken, rule);
        lemma_candidates_finite(participants, front, taken, rule);
        let id = participants[queue.last() as int].id;
        assert forall|w: u32| all.contains(w) implies fewer.insert(id).contains(w) by {
            let k = choose|k: int|
                0 <= k < queue.len() && participants[(#[trigger] queue[k]) as int].id == w
                    && rule.admits(participants[queue[k] as int]);
            if k < queue.len() - 1 {
                assert(front[k] == queue[k]);
            }
        }
        lemma_len_subset(all, fewer.insert(id));
    }
}

/// A tier finds as many winners as it was asked for, or as many as there
/// are candidates, whichever is less. So it finds all its winners exactly if
/// there are at least that many candidates.
pub proof fn lemma_tier_finds_every_candidate(
    participants: Seq<Participant>,
    queue: Seq<usize>,
    taken: Set<u32>,
    rule: Eligibility,
    count: nat,
)
    ensures
        ({
            let found = run_tier(participants, queue, taken, rule, count).winners.len();
            let open = candidates(participants, queue, taken, rule).len();
            found == if count <= open {
                count
            } else {
                open
            }
        }),
    decreases queue.len(),
{
    let all = candidates(participants, queue, taken, rule);
    lemma_candidates_finite(participants, queue, taken, rule);
    if count > 0 && queue.len() > 0 {
        let tail = queue.drop_first();
        let owner = participants[queue[0] as int];
        assert forall|w: u32|
            holds_ticket(participants, queue, w, rule) && !(w == owner.id && rule.admits(
                owner,
            )) implies holds_ticket(participants, tail, w, rule) by {
            let k = choose|k: int|
                0 <= k < queue.len() && participants[(#[trigger] queue[k]) as int].id == w
                    && rule.admits(participants[queue[k] as int]);
            assert(tail[k - 1] == queue[k]);
        }
        match judge(participants, queue[0], taken, rule) {
            Drawn::Winner(id) => {
                let fewer = candidates(participants, tail, taken.insert(id), rule);
                lemma_tier_finds_every_candidate(
                    participants,
                    tail,
                    taken.insert(id),
                    rule,
                    (count - 1) as nat,
                );
                assert(fewer =~= all.remove(id));
            },
            _ => {
                let same = candidates(participants, tail, taken, rule);
                lemma_tier_finds_every_candidate(participants, tail, taken, rule, count);
                assert(same =~= all);
            },
        }
    }
}

/// A tier open to everybody looks at identifiers only: whether somebody
/// submitted or won a prize before makes no difference to it.
pub proof fn lemma_open_tier_reads_identifiers_only(
    participants: Seq<Participant>,
    others: Seq<Participant>,
    queue: Seq<usize>,
    taken: Set<u32>,
    count: nat,
)
    requires
        others.len() == participants.len(),
        forall|j: int| 0 <= j < participants.len() ==> others[j].id == participants[j].id,
        forall|k: int| 0 <= k < queue.len() ==> queue[k] < participants.len(),
    ensures
        run_tier(others, queue, taken, Eligibility::Any, count) == run_tier(
            participants,
            queue,
            taken,
            Eligibility::Any,
            count,
        ),
    decreases queue.len(),
{
    if count > 0 && queue.len() > 0 {
        let tail = queue.drop_first();
        match judge(participants, queue[0], taken, Eligibility::Any) {
            Drawn::Winner(id) => {
                lemma_open_tier_reads_identifiers_only(
                    participants,
                    others,
                    tail,
                    taken.insert(id),
                    (count - 1) as nat,
                );
            },
            _ => {
                lemma_open_tier_reads_identifiers_only(participants, others, tail, taken, count);
            },
        }
    }
}

} // verus!
