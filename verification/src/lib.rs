//! A reproducible, weighted, tiered raffle.
//!
//! Every participant holds a number of tickets. The tickets are laid out in
//! a pool, the pool is permuted by a generator seeded from a published
//! number, and the winners of three prize tiers are read off the front of the
//! permuted pool. Nobody wins twice. The winners are then written into the
//! placeholders of a report template.
//!
//! - [`participant`]: the entries of the participant list.
//! - [`input`]: reading the seed and the boolean columns of the list.
//! - [`pool`]: laying out the ticket pool and permuting it under a seed.
//! - [`draw`]: the tiers, drawn off the front of the pool.
//! - [`report`]: writing the winners into a template.
//! - [`tier_laws`], [`raffle_laws`]: what is proved of every tier and of
//!   every raffle.
//!
//! [`run`] takes a raffle from the participant list to the report.

use crate::draw::draw;
use crate::draw::draw_outcome;
use crate::draw::DrawError;
use crate::draw::Eligibility;
use crate::draw::WinnerLists;
use crate::draw::Winners;
use crate::draw::CONSOLATION_PRIZES;
use crate::draw::FP5_VOUCHERS;
use crate::draw::GF10_VOUCHERS;
use crate::draw::GRAND_PRIZES;
use crate::draw::PRIZES;
use crate::participant::distinct_ids;
use crate::participant::Participant;
use crate::pool::chacha12_shuffle;
use crate::pool::shuffled_pool;
use crate::pool::ticket_pool;
use crate::raffle_laws::entrants;
use crate::raffle_laws::lemma_candidates_are_entrants;
use crate::report::fill_report;
use crate::report::filled_report;
use vstd::prelude::*;

pub mod draw;
pub mod input;
pub mod participant;
pub mod pool;
pub mod raffle_laws;
pub mod report;
pub mod tier_laws;

verus! {

/// The winners of the raffle among `participants` under `seed`, or `None`
/// if the tickets run out before a tier has found all its winners.
pub open spec fn raffle_outcome(participants: Seq<Participant>, seed: u64) -> Option<WinnerLists> {
    draw_outcome(participants, chacha12_shuffle(ticket_pool(participants), seed))
}

/// The report of the raffle among `participants` under `seed`, written into
/// `template`, or `None` if the raffle cannot be completed.
pub open spec fn raffle_report(
    participants: Seq<Participant>,
    seed: u64,
    template: Seq<char>,
) -> Option<Seq<char>> {
    match raffle_outcome(participants, seed) {
        Some(winners) => Some(filled_report(template, winners)),
        None => None,
    }
}

/// `res` is what a run of the raffle among `participants` under `seed` on
/// `template` hands back.
pub open spec fn is_result_of_run(
    res: Result<String, DrawError>,
    participants: Seq<Participant>,
    seed: u64,
    template: Seq<char>,
) -> bool {
    match res {
        Ok(report) => raffle_report(participants, seed, template) == Some(report@),
        Err(e) => raffle_report(participants, seed, template) is None && e
            == DrawError::PoolExhausted,
    }
}

/// A raffle can be run again: two runs among the same participants, under
/// the same seed and on the same template both fail, or both hand back the
/// same report, character for character.
pub proof fn lemma_raffle_is_reproducible(
    participants: Seq<Participant>,
    seed: u64,
    template: Seq<char>,
    first: Result<String, DrawError>,
    second: Result<String, DrawError>,
)
    requires
        is_result_of_run(first, participants, seed, template),
        is_result_of_run(second, participants, seed, template),
    ensures
        match (first, second) {
            (Ok(a), Ok(b)) => a@ == b@,
            (Err(a), Err(b)) => a == b,
            _ => false,
        },
{
}

/// Draws the winners among `participants` under `seed`.
///
/// The result is a function of the list and the seed alone.
pub fn draw_winners(participants: &Vec<Participant>, seed: u64) -> (res: Result<Winners, DrawError>)
    ensures
        res matches Ok(winners) ==> raffle_outcome(participants@, seed) == Some(winners@),
        res matches Err(e) ==> raffle_outcome(participants@, seed) is None && e
            == DrawError::PoolExhausted,
        res matches Ok(winners) ==> {
            &&& winners@.all().no_duplicates()
            &&& winners.grand@.len() == GRAND_PRIZES
            &&& winners.consolation@.len() == CONSOLATION_PRIZES
            &&& winners.vouchers_gf10@.len() == GF10_VOUCHERS
            &&& winners.vouchers_fp5@.len() == FP5_VOUCHERS
            &&& forall|i: int|
                0 <= i < winners.consolation@.len() ==> entrants(
                    participants@,
                    Eligibility::NoPriorWin,
                ).contains(#[trigger] winners.consolation@[i])
        },
        res matches Ok(winners) ==> (distinct_ids(participants@) ==> forall|j: int|
            0 <= j < participants@.len() && !(#[trigger] participants@[j]).eligible()
                ==> !winners.consolation@.contains(participants@[j].id)),
        entrants(participants@, Eligibility::NoPriorWin).len() >= PRIZES ==> res is Ok,
        entrants(participants@, Eligibility::NoPriorWin).len() < CONSOLATION_PRIZES || entrants(
            participants@,
            Eligibility::Any,
        ).len() < PRIZES ==> res is Err,
{
    let pool = shuffled_pool(participants, seed);
    proof {
        assert(participants@.len() == participants.len());
        lemma_candidates_are_entrants(participants@, pool@, Eligibility::NoPriorWin);
        lemma_candidates_are_entrants(participants@, pool@, Eligibility::Any);
    }
    draw(participants, pool)
}

/// Runs the raffle among `participants` under `seed` and writes the winners
/// into `template`.
///
/// The report is a function of the list, the seed and the template alone:
/// run again on the same three, it comes out the same, character for
/// character.
pub fn run(participants: &Vec<Participant>, seed: u64, template: &str) -> (res: Result<
    String,
    DrawError,
>)
    ensures
        is_result_of_run(res, participants@, seed, template@),
        entrants(participants@, Eligibility::NoPriorWin).len() >= PRIZES ==> res is Ok,
        entrants(participants@, Eligibility::NoPriorWin).len() < CONSOLATION_PRIZES || entrants(
            participants@,
            Eligibility::Any,
        ).len() < PRIZES ==> res is Err,
{
    match draw_winners(participants, seed) {
        Ok(winners) => Ok(fill_report(template, &winners)),
        Err(e) => Err(e),
    }
}

} // verus!
