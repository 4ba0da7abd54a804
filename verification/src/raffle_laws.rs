//! What holds of every raffle.

use crate::draw::draw_outcome;
use crate::draw::run_tier;
use crate::draw::state_after_consolation;
use crate::draw::state_after_grand;
use crate::draw::state_after_vouchers;
use crate::draw::DrawState;
use crate::draw::Eligibility;
use crate::draw::CONSOLATION_PRIZES;
use crate::draw::FP5_VOUCHERS;
use crate::draw::GF10_VOUCHERS;
use crate::draw::GRAND_PRIZES;
use crate::draw::PRIZES;
use crate::draw::VOUCHERS;
use crate::participant::distinct_ids;
use crate::participant::Participant;
use crate::pool::lemma_rearranged_pool_holds_entrants;
use crate::pool::ticket_pool;
use crate::pool::valid_tickets;
use crate::tier_laws::candidates;
use crate::tier_laws::holds_ticket;
use crate::tier_laws::lemma_candidates_finite;
use crate::tier_laws::lemma_open_tier_reads_identifiers_only;
use crate::tier_laws::lemma_skipped_owners_have_not_won;
use crate::tier_laws::lemma_tier_counts_winners;
use crate::tier_laws::lemma_tier_draws_from_queue;
use crate::tier_laws::lemma_tier_finds_every_candidate;
use crate::tier_laws::lemma_tier_keeps_tickets;
use crate::tier_laws::lemma_tier_on_joined_queues;
use crate::tier_laws::lemma_tier_winners_are_new;
use vstd::prelude::*;
use vstd::set_lib::lemma_len_subset;
use vstd::set_lib::lemma_len_union;

verus! {

/// The identifiers of those who hold at least one ticket and are let in by
/// `rule`.
pub open spec fn entrants(participants: Seq<Participant>, rule: Eligibility) -> Set<u32> {
    Set::new(
        |id: u32|
            exists|j: int|
                0 <= j < participants.len() && (#[trigger] participants[j]).id == id
                    && participants[j].tickets > 0 && rule.admits(participants[j]),
    )
}

/// However the pool is rearranged, those who can win in its first tier are
/// the entrants whom the rule lets in.
pub proof fn lemma_candidates_are_entrants(
    participants: Seq<Participant>,
    pool: Seq<usize>,
    rule: Eligibility,
)
    requires
        participants.len() <= usize::MAX,
        pool.to_multiset() == ticket_pool(participants).to_multiset(),
    ensures
        candidates(participants, pool, Set::empty(), rule) == entrants(participants, rule),
{
    let open = candidates(participants, pool, Set::empty(), rule);
    let all = entrants(participants, rule);
    assert forall|id: u32| open.contains(id) <==> all.contains(id) by {
        if open.contains(id) {
            let k = choose|k: int|
                0 <= k < pool.len() && participants[(#[trigger] pool[k]) as int].id == id
                    && rule.admits(participants[pool[k] as int]);
            lemma_rearranged_pool_holds_entrants(participants, pool, pool[k]);
        }
        if all.contains(id) {
            let j = choose|j: int|
                0 <= j < participants.len() && (#[trigger] participants[j]).id == id
                    && participants[j].tickets > 0 && rule.admits(participants[j]);
            lemma_rearranged_pool_holds_entrants(participants, pool, j as usize);
        }
    }
}

/// Nobody wins twice: no identifier appears in two of the lists of winners,
/// nor twice in one of them.
pub proof fn lemma_nobody_wins_twice(participants: Seq<Participant>, pool: Seq<usize>)
    ensures
        draw_outcome(participants, pool) matches Some(winners) ==> winners.all().no_duplicates(),
{
    if let Some(winners) = draw_outcome(participants, pool) {
        let none = Set::<u32>::empty();
        let s1 = state_after_grand(participants, pool);
        let s2 = state_after_consolation(participants, pool);
        lemma_tier_winners_are_new(participants, pool, none, Eligibility::Any, GRAND_PRIZES as nat);
        lemma_tier_winners_are_new(
            participants,
            s1.pool,
            s1.taken,
            Eligibility::NoPriorWin,
            CONSOLATION_PRIZES as nat,
        );
        lemma_vouchers_take_skipped_first(participants, s2, VOUCHERS as nat);
        lemma_tier_winners_are_new(
            participants,
            s2.skipped + s2.pool,
            s2.taken,
            Eligibility::Any,
            VOUCHERS as nat,
        );
    }
}

/// A raffle that completes has found exactly as many winners as there are
/// prizes in each tier, and those who have won at its end are its winners
/// and nobody else.
pub proof fn lemma_every_prize_finds_a_winner(participants: Seq<Participant>, pool: Seq<usize>)
    ensures
        draw_outcome(participants, pool) matches Some(winners) ==> {
            &&& winners.grand.len() == GRAND_PRIZES
            &&& winners.consolation.len() == CONSOLATION_PRIZES
            &&& winners.vouchers_gf10.len() == GF10_VOUCHERS
            &&& winners.vouchers_fp5.len() == FP5_VOUCHERS
            &&& state_after_vouchers(participants, pool).taken.finite()
            &&& state_after_vouchers(participants, pool).taken.len() == PRIZES
            &&& state_after_vouchers(participants, pool).taken == winners.all().to_set()
        },
{
    if let Some(winners) = draw_outcome(participants, pool) {
        let none = Set::<u32>::empty();
        let grand = run_tier(participants, pool, none, Eligibility::Any, GRAND_PRIZES as nat);
        let s1 = state_after_grand(participants, pool);
        let consolation = run_tier(
            participants,
            s1.pool,
            s1.taken,
            Eligibility::NoPriorWin,
            CONSOLATION_PRIZES as nat,
        );
        let s2 = state_after_consolation(participants, pool);
        let vouchers = run_tier(
            participants,
            s2.skipped + s2.pool,
            s2.taken,
            Eligibility::Any,
            VOUCHERS as nat,
        );
        lemma_tier_counts_winners(participants, pool, none, Eligibility::Any, GRAND_PRIZES as nat);
        lemma_tier_counts_winners(
            participants,
            s1.pool,
            s1.taken,
            Eligibility::NoPriorWin,
            CONSOLATION_PRIZES as nat,
        );
        lemma_vouchers_take_skipped_first(participants, s2, VOUCHERS as nat);
        lemma_tier_counts_winners(
            participants,
            s2.skipped + s2.pool,
            s2.taken,
            Eligibility::Any,
            VOUCHERS as nat,
        );
        lemma_tier_winners_are_new(participants, pool, none, Eligibility::Any, GRAND_PRIZES as nat);
        lemma_tier_winners_are_new(
            participants,
            s1.pool,
            s1.taken,
            Eligibility::NoPriorWin,
            CONSOLATION_PRIZES as nat,
        );
        lemma_tier_winners_are_new(
            participants,
            s2.skipped + s2.pool,
            s2.taken,
            Eligibility::Any,
            VOUCHERS as nat,
        );
        let all = winners.all();
        let taken = state_after_vouchers(participants, pool).taken;
        assert forall|id: u32| taken.contains(id) <==> all.to_set().contains(id) by {
            if grand.winners.contains(id) {
                let i = choose|i: int| 0 <= i < grand.winners.len() && grand.winners[i] == id;
                assert(all[i] == id);
            }
            if consolation.winners.contains(id) {
                let i = choose|i: int|
                    0 <= i < consolation.winners.len() && consolation.winners[i] == id;
                assert(all[grand.winners.len() + i] == id);
            }
            if vouchers.winners.contains(id) {
                let i = choose|i: int|
                    0 <= i < vouchers.winners.len() && vouchers.winners[i] == id;
                assert(all[grand.winners.len() + consolation.winners.len() + i] == id);
            }
        }
    }
}

/// Every winner of a raffle owns a ticket of the pool.
pub proof fn lemma_winners_hold_tickets(participants: Seq<Participant>, pool: Seq<usize>)
    ensures
        draw_outcome(participants, pool) matches Some(winners) ==> forall|i: int|
            0 <= i < winners.all().len() ==> holds_ticket(
                participants,
                pool,
                #[trigger] winners.all()[i],
                Eligibility::Any,
            ),
{
    if let Some(winners) = draw_outcome(participants, pool) {
        let none = Set::<u32>::empty();
        let s1 = state_after_grand(participants, pool);
        let s2 = state_after_consolation(participants, pool);
        let queue = s2.skipped + s2.pool;
        lemma_tier_draws_from_queue(
            participants,
            pool,
            none,
            Eligibility::Any,
            GRAND_PRIZES as nat,
        );
        lemma_tier_draws_from_queue(
            participants,
            s1.pool,
            s1.taken,
            Eligibility::NoPriorWin,
            CONSOLATION_PRIZES as nat,
        );
        lemma_tier_draws_from_queue(
            participants,
            queue,
            s2.taken,
            Eligibility::Any,
            VOUCHERS as nat,
        );
        lemma_vouchers_take_skipped_first(participants, s2, VOUCHERS as nat);
    }
}

/// Every winner of a consolation prize owns a ticket of the pool, has
/// submitted and had not won a prize before the raffle.
pub proof fn lemma_consolation_winners_are_eligible(
    participants: Seq<Participant>,
    pool: Seq<usize>,
)
    ensures
        draw_outcome(participants, pool) matches Some(winners) ==> forall|i: int|
            0 <= i < winners.consolation.len() ==> holds_ticket(
                participants,
                pool,
                #[trigger] winners.consolation[i],
                Eligibility::NoPriorWin,
            ),
{
    if let Some(winners) = draw_outcome(participants, pool) {
        let none = Set::<u32>::empty();
        let s1 = state_after_grand(participants, pool);
        lemma_tier_draws_from_queue(
            participants,
            pool,
            none,
            Eligibility::Any,
            GRAND_PRIZES as nat,
        );
        lemma_tier_draws_from_queue(
            participants,
            s1.pool,
            s1.taken,
            Eligibility::NoPriorWin,
            CONSOLATION_PRIZES as nat,
        );
    }
}

/// Among participants with distinct identifiers, nobody who failed to
/// submit or had won a prize before wins a consolation prize.
pub proof fn lemma_ineligible_win_no_consolation(
    participants: Seq<Participant>,
    pool: Seq<usize>,
)
    requires
        distinct_ids(participants),
        valid_tickets(pool, participants.len()),
    ensures
        draw_outcome(participants, pool) matches Some(winners) ==> forall|j: int|
            0 <= j < participants.len() && !(#[trigger] participants[j]).eligible()
                ==> !winners.consolation.contains(participants[j].id),
{
    lemma_consolation_winners_are_eligible(participants, pool);
}

/// The voucher tier is open to everybody: whether somebody submitted or
/// won a prize before makes no difference to who wins a voucher.
pub proof fn lemma_vouchers_ignore_eligibility(
    participants: Seq<Participant>,
    others: Seq<Participant>,
    state: DrawState,
    count: nat,
)
    requires
        others.len() == participants.len(),
        forall|j: int| 0 <= j < participants.len() ==> others[j].id == participants[j].id,
        valid_tickets(state.pool, participants.len()),
        valid_tickets(state.skipped, participants.len()),
    ensures
        state.voucher_winners(others, count) == state.voucher_winners(participants, count),
        state.after_vouchers(others, count) == state.after_vouchers(participants, count),
{
    lemma_open_tier_reads_identifiers_only(
        participants,
        others,
        state.skipped,
        state.taken,
        count,
    );
    let first = state.skipped_tier(participants, count);
    lemma_open_tier_reads_identifiers_only(
        participants,
        others,
        state.pool,
        first.taken,
        (count - first.winners.len()) as nat,
    );
}

/// The voucher tier draws as a single tier would from the skipped queue
/// with the main pool laid behind it: every ticket that was set aside comes
/// up before the first ticket of the main pool does.
pub proof fn lemma_vouchers_take_skipped_first(
    participants: Seq<Participant>,
    state: DrawState,
    count: nat,
)
    ensures
        ({
            let whole = run_tier(
                participants,
                state.skipped + state.pool,
                state.taken,
                Eligibility::Any,
                count,
            );
            &&& state.voucher_winners(participants, count) == whole.winners
            &&& state.after_vouchers(participants, count).taken == whole.taken
            &&& state.skipped_tier(participants, count).winners.is_prefix_of(
                state.voucher_winners(participants, count),
            )
        }),
{
    lemma_tier_on_joined_queues(
        participants,
        state.skipped,
        state.pool,
        state.taken,
        Eligibility::Any,
        count,
    );
}

/// Where a ticket was set aside and its owner has not won by the start of
/// the voucher tier, the owner of the oldest such ticket at the front of the
/// skipped queue is the first to win a voucher.
pub proof fn lemma_first_voucher_goes_to_skipped(
    participants: Seq<Participant>,
    state: DrawState,
    count: nat,
)
    requires
        count > 0,
        state.skipped.len() > 0,
        !state.taken.contains(participants[state.skipped[0] as int].id),
    ensures
        state.voucher_winners(participants, count).len() > 0,
        state.voucher_winners(participants, count)[0] == participants[state.skipped[0] as int].id,
{
}

/// Among participants with distinct identifiers, whoever was turned away
/// from the consolation prizes gets the first chance at a voucher: where a
/// ticket was set aside, the owner of the first such ticket wins the first
/// voucher.
pub proof fn lemma_skipped_win_vouchers_first(participants: Seq<Participant>, pool: Seq<usize>)
    requires
        distinct_ids(participants),
        valid_tickets(pool, participants.len()),
    ensures
        ({
            let state = state_after_consolation(participants, pool);
            let vouchers = state.voucher_winners(participants, VOUCHERS as nat);
            state.skipped.len() > 0 ==> vouchers.len() > 0 && vouchers[0]
                == participants[state.skipped[0] as int].id
        }),
{
    let none = Set::<u32>::empty();
    let s1 = state_after_grand(participants, pool);
    lemma_tier_draws_from_queue(participants, pool, none, Eligibility::Any, GRAND_PRIZES as nat);
    lemma_skipped_owners_have_not_won(
        participants,
        s1.pool,
        s1.taken,
        Eligibility::NoPriorWin,
        CONSOLATION_PRIZES as nat,
    );
}

/// A raffle completes if the tickets of the pool belong to at least as many
/// different identifiers of participants who submitted and never won before
/// as there are prizes in all tiers together.
pub proof fn lemma_enough_candidates_complete_raffle(
    participants: Seq<Participant>,
    pool: Seq<usize>,
)
    requires
        candidates(participants, pool, Set::empty(), Eligibility::NoPriorWin).len() >= PRIZES,
    ensures
        draw_outcome(participants, pool) is Some,
{
    let none = Set::<u32>::empty();
    let eligible = candidates(participants, pool, none, Eligibility::NoPriorWin);

    // The grand prizes.
    let grand = run_tier(participants, pool, none, Eligibility::Any, GRAND_PRIZES as nat);
    let for_grand = candidates(participants, pool, none, Eligibility::Any);
    lemma_candidates_finite(participants, pool, none, Eligibility::Any);
    lemma_len_subset(eligible, for_grand);
    lemma_tier_finds_every_candidate(
        participants,
        pool,
        none,
        Eligibility::Any,
        GRAND_PRIZES as nat,
    );
    lemma_tier_counts_winners(participants, pool, none, Eligibility::Any, GRAND_PRIZES as nat);
    lemma_tier_keeps_tickets(participants, pool, none, Eligibility::Any, GRAND_PRIZES as nat);
    lemma_tier_draws_from_queue(participants, pool, none, Eligibility::Any, GRAND_PRIZES as nat);

    // The consolation prizes.
    let s1 = state_after_grand(participants, pool);
    let consolation = run_tier(
        participants,
        s1.pool,
        s1.taken,
        Eligibility::NoPriorWin,
        CONSOLATION_PRIZES as nat,
    );
    let for_consolation = candidates(participants, s1.pool, s1.taken, Eligibility::NoPriorWin);
    lemma_candidates_finite(participants, s1.pool, s1.taken, Eligibility::NoPriorWin);
    lemma_len_union(for_consolation, s1.taken);
    lemma_len_subset(eligible, for_consolation.union(s1.taken));
    lemma_tier_finds_every_candidate(
        participants,
        s1.pool,
        s1.taken,
        Eligibility::NoPriorWin,
        CONSOLATION_PRIZES as nat,
    );
    lemma_tier_counts_winners(
        participants,
        s1.pool,
        s1.taken,
        Eligibility::NoPriorWin,
        CONSOLATION_PRIZES as nat,
    );
    lemma_tier_keeps_tickets(
        participants,
        s1.pool,
        s1.taken,
        Eligibility::NoPriorWin,
        CONSOLATION_PRIZES as nat,
    );
    lemma_tier_winners_are_new(
        participants,
        s1.pool,
        s1.taken,
        Eligibility::NoPriorWin,
        CONSOLATION_PRIZES as nat,
    );

    // The vouchers.
    let s2 = state_after_consolation(participants, pool);
    let queue = s2.skipped + s2.pool;
    let for_vouchers = candidates(participants, queue, s2.taken, Eligibility::Any);
    lemma_candidates_finite(participants, queue, s2.taken, Eligibility::Any);
    assert forall|id: u32| eligible.contains(id) implies for_vouchers.union(s2.taken).contains(
        id,
    ) by {
        if !s2.taken.contains(id) {
            let k = choose|k: int|
                0 <= k < pool.len() && participants[(#[trigger] pool[k]) as int].id == id
                    && Eligibility::NoPriorWin.admits(participants[pool[k] as int]);
            let m = choose|m: int| 0 <= m < grand.rest.len() && grand.rest[m] == pool[k];
            let t = s1.pool[m];
            if consolation.skipped.contains(t) {
                let n = choose|n: int|
                    0 <= n < consolation.skipped.len() && consolation.skipped[n] == t;
                assert(queue[n] == t);
            } else {
                let n = choose|n: int|
                    0 <= n < consolation.rest.len() && consolation.rest[n] == t;
                assert(queue[s2.skipped.len() + n] == t);
            }
        }
    }
    lemma_len_union(for_vouchers, s2.taken);
    lemma_len_subset(eligible, for_vouchers.union(s2.taken));
    lemma_tier_finds_every_candidate(
        participants,
        queue,
        s2.taken,
        Eligibility::Any,
        VOUCHERS as nat,
    );
    lemma_vouchers_take_skipped_first(participants, s2, VOUCHERS as nat);
}

/// A raffle fails if the tickets of the pool belong to fewer different
/// identifiers than there are prizes in all tiers together, or to fewer
/// different identifiers of participants who submitted and never won before
/// than there are consolation prizes.
pub proof fn lemma_few_candidates_fail_raffle(participants: Seq<Participant>, pool: Seq<usize>)
    requires
        candidates(participants, pool, Set::empty(), Eligibility::Any).len() < PRIZES || candidates(
            participants,
            pool,
            Set::empty(),
            Eligibility::NoPriorWin,
        ).len() < CONSOLATION_PRIZES,
    ensures
        draw_outcome(participants, pool) is None,
{
    if let Some(winners) = draw_outcome(participants, pool) {
        let none = Set::<u32>::empty();
        let s1 = state_after_grand(participants, pool);
        let anybody = candidates(participants, pool, none, Eligibility::Any);
        let eligible = candidates(participants, pool, none, Eligibility::NoPriorWin);
        lemma_candidates_finite(participants, pool, none, Eligibility::Any);
        lemma_candidates_finite(participants, pool, none, Eligibility::NoPriorWin);
        lemma_every_prize_finds_a_winner(participants, pool);
        lemma_consolation_winners_are_eligible(participants, pool);
        lemma_tier_winners_are_new(
            participants,
            s1.pool,
            s1.taken,
            Eligibility::NoPriorWin,
            CONSOLATION_PRIZES as nat,
        );
        winners.consolation.unique_seq_to_set();
        lemma_len_subset(winners.consolation.to_set(), eligible);
        lemma_winners_hold_tickets(participants, pool);
        lemma_len_subset(winners.all().to_set(), anybody);
    }
}

} // verus!
