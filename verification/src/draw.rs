//! Drawing winners off the front of a queue of tickets.
//!
//! A tier takes tickets from the front of a queue until it has found the
//! number of winners it was asked for or the queue is used up. A ticket
//! whose owner has already won is burned. A ticket whose owner the tier's
//! eligibility rule turns away is set aside, and its owner stays free to win
//! later. Every other ticket makes its owner a winner.

use crate::participant::distinct_ids;
use crate::participant::Participant;
use crate::pool::valid_tickets;
use crate::raffle_laws::lemma_consolation_winners_are_eligible;
use crate::raffle_laws::lemma_enough_candidates_complete_raffle;
use crate::raffle_laws::lemma_every_prize_finds_a_winner;
use crate::raffle_laws::lemma_few_candidates_fail_raffle;
use crate::raffle_laws::lemma_ineligible_win_no_consolation;
use crate::raffle_laws::lemma_nobody_wins_twice;
use crate::tier_laws::candidates;
use crate::tier_laws::holds_ticket;
use std::collections::HashSet;
use std::collections::VecDeque;
use vstd::prelude::*;

verus! {

broadcast use vstd::std_specs::hash::group_hash_axioms;

/// Who may win in a tier.
#[derive(Clone, Copy, Debug, PartialEq, Eq, Structural)]
pub enum Eligibility {
    /// Everybody who has not won yet.
    Any,
    /// Only those who submitted and never won a prize before this raffle.
    NoPriorWin,
}

impl Eligibility {
    /// Whether the rule lets `p` win.
    pub open spec fn admits(self, p: Participant) -> bool {
        match self {
            Eligibility::Any => true,
            Eligibility::NoPriorWin => p.eligible(),
        }
    }

    /// Executable form of [`Eligibility::admits`].
    pub fn accepts(&self, p: &Participant) -> (b: bool)
        ensures
            b == self.admits(*p),
    {
        match self {
            Eligibility::Any => true,
            Eligibility::NoPriorWin => p.is_eligible(),
        }
    }
}

/// What became of one ticket taken off a queue.
#[derive(Clone, Copy, Debug, PartialEq, Eq, Structural)]
pub enum Drawn {
    /// The owner had won before: the ticket is discarded.
    Burned,
    /// The rule turned the owner away: the ticket, held here, is set aside.
    Rejected(usize),
    /// The owner, whose identifier is held here, wins.
    Winner(u32),
}

/// The fate of `ticket` when the identifiers in `taken` have won already.
pub open spec fn judge(
    participants: Seq<Participant>,
    ticket: usize,
    taken: Set<u32>,
    rule: Eligibility,
) -> Drawn {
    let owner = participants[ticket as int];
    if taken.contains(owner.id) {
        Drawn::Burned
    } else if !rule.admits(owner) {
        Drawn::Rejected(ticket)
    } else {
        Drawn::Winner(owner.id)
    }
}

/// Takes the front ticket off `queue` and decides its fate; a winner is
/// added to `winners`. Returns `None`, and changes nothing, when the queue is
/// empty.
pub fn draw_next(
    participants: &Vec<Participant>,
    queue: &mut VecDeque<usize>,
    winners: &mut HashSet<u32>,
    rule: Eligibility,
) -> (drawn: Option<Drawn>)
    requires
        valid_tickets(old(queue)@, participants@.len()),
    ensures
        old(queue)@.len() == 0 ==> {
            &&& drawn is None
            &&& final(queue)@ == old(queue)@
        },
        old(queue)@.len() > 0 ==> {
            &&& drawn == Some(judge(participants@, old(queue)@[0], old(winners)@, rule))
            &&& final(queue)@ == old(queue)@.drop_first()
        },
        drawn matches Some(Drawn::Winner(id)) ==> final(winners)@ == old(winners)@.insert(id),
        !(drawn matches Some(Drawn::Winner(_))) ==> final(winners)@ == old(winners)@,
{
    match queue.pop_front() {
        None => None,
        Some(ticket) => {
            let owner = &participants[ticket];
            if winners.contains(&owner.id) {
                Some(Drawn::Burned)
            } else if !rule.accepts(owner) {
                Some(Drawn::Rejected(ticket))
            } else {
                winners.insert(owner.id);
                Some(Drawn::Winner(owner.id))
            }
        },
    }
}

/// The course of one tier, as a mathematical value.
pub struct TierRun {
    /// Identifiers of the winners, in the order in which they were drawn.
    pub winners: Seq<u32>,
    /// Tickets that the rule turned away, in the order in which they came up.
    pub skipped: Seq<usize>,
    /// What is left of the queue when the tier stops.
    pub rest: Seq<usize>,
    /// Everybody who has won once the tier stops.
    pub taken: Set<u32>,
}

/// Runs a tier on `queue`: tickets leave the front one by one until `count`
/// winners are found or no ticket is left.
///
/// The tier found all its winners exactly if `winners` has `count` entries.
pub open spec fn run_tier(
    participants: Seq<Participant>,
    queue: Seq<usize>,
    taken: Set<u32>,
    rule: Eligibility,
    count: nat,
) -> TierRun
    decreases queue.len(),
{
    if count == 0 || queue.len() == 0 {
        TierRun { winners: Seq::empty(), skipped: Seq::empty(), rest: queue, taken }
    } else {
        match judge(participants, queue[0], taken, rule) {
            Drawn::Burned => run_tier(participants, queue.drop_first(), taken, rule, count),
            Drawn::Rejected(ticket) => {
                let later = run_tier(participants, queue.drop_first(), taken, rule, count);
                TierRun {
                    winners: later.winners,
                    skipped: seq![ticket] + later.skipped,
                    rest: later.rest,
                    taken: later.taken,
                }
            },
            Drawn::Winner(id) => {
                let later = run_tier(
                    participants,
                    queue.drop_first(),
                    taken.insert(id),
                    rule,
                    (count - 1) as nat,
                );
                TierRun {
                    winners: seq![id] + later.winners,
                    skipped: later.skipped,
                    rest: later.rest,
                    taken: later.taken,
                }
            },
        }
    }
}

/// What a tier hands back: its winners and the tickets it set aside.
#[derive(Debug, PartialEq, Eq)]
pub struct TierDraw {
    /// Identifiers of the winners, in the order in which they were drawn.
    pub winners: Vec<u32>,
    /// Tickets that the rule turned away, in the order in which they came up.
    pub skipped: Vec<usize>,
}

/// Draws up to `count` winners off the front of `queue`.
///
/// The tier found all its winners exactly if the list handed back has
/// `count` entries; otherwise the queue was used up first.
pub fn draw_tier(
    participants: &Vec<Participant>,
    queue: &mut VecDeque<usize>,
    winners: &mut HashSet<u32>,
    rule: Eligibility,
    count: usize,
) -> (drawn: TierDraw)
    requires
        valid_tickets(old(queue)@, participants@.len()),
    ensures
        ({
            let run = run_tier(participants@, old(queue)@, old(winners)@, rule, count as nat);
            &&& drawn.winners@ == run.winners
            &&& drawn.skipped@ == run.skipped
            &&& final(queue)@ == run.rest
            &&& final(winners)@ == run.taken
        }),
        drawn.winners@.len() <= count,
        valid_tickets(final(queue)@, participants@.len()),
        valid_tickets(drawn.skipped@, participants@.len()),
{
    let ghost total = run_tier(participants@, queue@, winners@, rule, count as nat);
    let mut won: Vec<u32> = Vec::new();
    let mut skipped: Vec<usize> = Vec::new();
    while won.len() < count
        invariant
            won.len() <= count,
            total == run_tier(participants@, old(queue)@, old(winners)@, rule, count as nat),
            valid_tickets(queue@, participants@.len()),
            valid_tickets(skipped@, participants@.len()),
            ({
                let later = run_tier(
                    participants@,
                    queue@,
                    winners@,
                    rule,
                    (count - won.len()) as nat,
                );
                &&& total.winners == won@ + later.winners
                &&& total.skipped == skipped@ + later.skipped
                &&& total.rest == later.rest
                &&& total.taken == later.taken
            }),
        decreases queue@.len(),
    {
        match draw_next(participants, queue, winners, rule) {
            None => {
                return TierDraw { winners: won, skipped };
            },
            Some(Drawn::Burned) => {},
            Some(Drawn::Rejected(ticket)) => {
                skipped.push(ticket);
            },
            Some(Drawn::Winner(id)) => {
                won.push(id);
            },
        }
    }
    TierDraw { winners: won, skipped }
}

/// Number of grand prizes.
pub const GRAND_PRIZES: usize = 3;

/// Number of consolation prizes.
pub const CONSOLATION_PRIZES: usize = 19;

/// Number of vouchers in the first voucher group.
pub const GF10_VOUCHERS: usize = 49;

/// Number of vouchers in the second voucher group.
pub const FP5_VOUCHERS: usize = 356;

/// Number of vouchers in both groups together.
pub const VOUCHERS: usize = GF10_VOUCHERS + FP5_VOUCHERS;

/// Number of prizes in all tiers together.
pub const PRIZES: usize = GRAND_PRIZES + CONSOLATION_PRIZES + VOUCHERS;

/// Why a draw could not be completed.
#[derive(Clone, Copy, Debug, PartialEq, Eq, Structural)]
pub enum DrawError {
    /// The tickets ran out before a tier had found all its winners.
    PoolExhausted,
}

/// The state of a raffle between two tiers, as a mathematical value.
pub struct DrawState {
    /// The main pool, front first.
    pub pool: Seq<usize>,
    /// Tickets set aside by the consolation tier, oldest first.
    pub skipped: Seq<usize>,
    /// Identifiers of everybody who has won so far.
    pub taken: Set<u32>,
}

impl DrawState {
    /// The state before the first tier: nobody has won, nothing is set aside.
    pub open spec fn start(pool: Seq<usize>) -> DrawState {
        DrawState { pool, skipped: Seq::empty(), taken: Set::empty() }
    }

    /// The course of a tier that draws from the main pool.
    pub open spec fn pool_tier(
        self,
        participants: Seq<Participant>,
        rule: Eligibility,
        count: nat,
    ) -> TierRun {
        run_tier(participants, self.pool, self.taken, rule, count)
    }

    /// The state that a tier drawing from the main pool leaves behind: what
    /// it turned away joins the back of the skipped queue.
    pub open spec fn after_pool_tier(
        self,
        participants: Seq<Participant>,
        rule: Eligibility,
        count: nat,
    ) -> DrawState {
        let run = self.pool_tier(participants, rule, count);
        DrawState { pool: run.rest, skipped: self.skipped + run.skipped, taken: run.taken }
    }

    /// The first part of the voucher tier: it draws from the skipped queue,
    /// and everybody who has not won yet may win.
    pub open spec fn skipped_tier(self, participants: Seq<Participant>, count: nat) -> TierRun {
        run_tier(participants, self.skipped, self.taken, Eligibility::Any, count)
    }

    /// The second part of the voucher tier: what the skipped queue could not
    /// supply is drawn from the main pool.
    pub open spec fn refill_tier(self, participants: Seq<Participant>, count: nat) -> TierRun {
        let first = self.skipped_tier(participants, count);
        run_tier(
            participants,
            self.pool,
            first.taken,
            Eligibility::Any,
            (count - first.winners.len()) as nat,
        )
    }

    /// The winners of the voucher tier, in the order in which they were drawn.
    pub open spec fn voucher_winners(self, participants: Seq<Participant>, count: nat) -> Seq<
        u32,
    > {
        self.skipped_tier(participants, count).winners + self.refill_tier(
            participants,
            count,
        ).winners
    }

    /// The state that the voucher tier leaves behind.
    pub open spec fn after_vouchers(self, participants: Seq<Participant>, count: nat) -> DrawState {
        let first = self.skipped_tier(participants, count);
        let second = self.refill_tier(participants, count);
        DrawState { pool: second.rest, skipped: first.rest, taken: second.taken }
    }
}

/// The state of a raffle: the main pool, the tickets set aside, and the
/// identifiers of everybody who has won.
pub struct Drawer {
    /// The main pool, consumed from the front.
    pub pool: VecDeque<usize>,
    /// Tickets set aside by the consolation tier, oldest first.
    pub skipped: VecDeque<usize>,
    /// Identifiers of everybody who has won so far.
    pub winners: HashSet<u32>,
}

impl View for Drawer {
    type V = DrawState;

    open spec fn view(&self) -> DrawState {
        DrawState { pool: self.pool@, skipped: self.skipped@, taken: self.winners@ }
    }
}

impl Drawer {
    /// Every ticket held names an entry of a list of `n` participants.
    pub open spec fn wf(&self, n: nat) -> bool {
        &&& valid_tickets(self.pool@, n)
        &&& valid_tickets(self.skipped@, n)
    }

    /// Starts a raffle on `pool`, whose front is its first entry.
    pub fn new(pool: Vec<usize>) -> (drawer: Drawer)
        ensures
            drawer@ == DrawState::start(pool@),
    {
        let mut queue: VecDeque<usize> = VecDeque::new();
        let mut i: usize = 0;
        while i < pool.len()
            invariant
                i <= pool.len(),
                queue@ == pool@.take(i as int),
            decreases pool.len() - i,
        {
            queue.push_back(pool[i]);
            i += 1;
        }
        assert(pool@.take(i as int) == pool@);
        Drawer { pool: queue, skipped: VecDeque::new(), winners: HashSet::new() }
    }

    /// Draws `count` winners from the main pool under `rule`, and moves what
    /// the rule turned away to the back of the skipped queue.
    ///
    /// Fails if the pool runs out first.
    pub fn draw_from_pool(
        &mut self,
        participants: &Vec<Participant>,
        rule: Eligibility,
        count: usize,
    ) -> (res: Result<Vec<u32>, DrawError>)
        requires
            old(self).wf(participants@.len()),
        ensures
            final(self).wf(participants@.len()),
            final(self)@ == old(self)@.after_pool_tier(participants@, rule, count as nat),
            res is Ok <==> old(self)@.pool_tier(participants@, rule, count as nat).winners.len()
                == count,
            res matches Ok(list) ==> list@ == old(self)@.pool_tier(
                participants@,
                rule,
                count as nat,
            ).winners,
            res matches Err(e) ==> e == DrawError::PoolExhausted,
    {
        let drawn = draw_tier(participants, &mut self.pool, &mut self.winners, rule, count);
        let TierDraw { winners, skipped } = drawn;
        let mut i: usize = 0;
        while i < skipped.len()
            invariant
                i <= skipped.len(),
                valid_tickets(skipped@, participants@.len()),
                valid_tickets(self.skipped@, participants@.len()),
                self.skipped@ == old(self).skipped@ + skipped@.take(i as int),
                self.pool@ == old(self)@.pool_tier(participants@, rule, count as nat).rest,
                self.winners@ == old(self)@.pool_tier(participants@, rule, count as nat).taken,
            decreases skipped.len() - i,
        {
            self.skipped.push_back(skipped[i]);
            i += 1;
        }
        assert(skipped@.take(i as int) == skipped@);
        if winners.len() == count {
            Ok(winners)
        } else {
            Err(DrawError::PoolExhausted)
        }
    }

    /// Draws `count` winners, none of them turned away: first from the
    /// skipped queue, until it is empty or all winners are found, then from
    /// the main pool.
    ///
    /// Fails if both run out first.
    pub fn draw_skipped_first(&mut self, participants: &Vec<Participant>, count: usize) -> (res:
        Result<Vec<u32>, DrawError>)
        requires
            old(self).wf(participants@.len()),
        ensures
            final(self).wf(participants@.len()),
            final(self)@ == old(self)@.after_vouchers(participants@, count as nat),
            res is Ok <==> old(self)@.voucher_winners(participants@, count as nat).len() == count,
            res matches Ok(list) ==> list@ == old(self)@.voucher_winners(
                participants@,
                count as nat,
            ),
            res matches Err(e) ==> e == DrawError::PoolExhausted,
    {
        let first = draw_tier(
            participants,
            &mut self.skipped,
            &mut self.winners,
            Eligibility::Any,
            count,
        );
        let mut winners = first.winners;
        let second = draw_tier(
            participants,
            &mut self.pool,
            &mut self.winners,
            Eligibility::Any,
            count - winners.len(),
        );
        let mut more = second.winners;
        winners.append(&mut more);
        if winners.len() == count {
            Ok(winners)
        } else {
            Err(DrawError::PoolExhausted)
        }
    }

    /// Draws the grand prizes: [`GRAND_PRIZES`] winners from the main pool,
    /// open to everybody.
    pub fn draw_grand_prizes(&mut self, participants: &Vec<Participant>) -> (res: Result<
        Vec<u32>,
        DrawError,
    >)
        requires
            old(self).wf(participants@.len()),
        ensures
            final(self).wf(participants@.len()),
            final(self)@ == old(self)@.after_pool_tier(
                participants@,
                Eligibility::Any,
                GRAND_PRIZES as nat,
            ),
            res is Ok <==> old(self)@.pool_tier(
                participants@,
                Eligibility::Any,
                GRAND_PRIZES as nat,
            ).winners.len() == GRAND_PRIZES,
            res matches Ok(list) ==> list@ == old(self)@.pool_tier(
                participants@,
                Eligibility::Any,
                GRAND_PRIZES as nat,
            ).winners,
            res matches Err(e) ==> e == DrawError::PoolExhausted,
    {
        self.draw_from_pool(participants, Eligibility::Any, GRAND_PRIZES)
    }

    /// Draws the consolation prizes: [`CONSOLATION_PRIZES`] winners from the
    /// main pool, among those who submitted and never won a prize before.
    /// The tickets of the others are set aside on the skipped queue.
    pub fn draw_consolation_prizes(&mut self, participants: &Vec<Participant>) -> (res: Result<
        Vec<u32>,
        DrawError,
    >)
        requires
            old(self).wf(participants@.len()),
        ensures
            final(self).wf(participants@.len()),
            final(self)@ == old(self)@.after_pool_tier(
                participants@,
                Eligibility::NoPriorWin,
                CONSOLATION_PRIZES as nat,
            ),
            res is Ok <==> old(self)@.pool_tier(
                participants@,
                Eligibility::NoPriorWin,
                CONSOLATION_PRIZES as nat,
            ).winners.len() == CONSOLATION_PRIZES,
            res matches Ok(list) ==> list@ == old(self)@.pool_tier(
                participants@,
                Eligibility::NoPriorWin,
                CONSOLATION_PRIZES as nat,
            ).winners,
            res matches Err(e) ==> e == DrawError::PoolExhausted,
    {
        self.draw_from_pool(participants, Eligibility::NoPriorWin, CONSOLATION_PRIZES)
    }

    /// Draws the vouchers: [`VOUCHERS`] winners, open to everybody, taken
    /// from the skipped queue first and from the main pool after it. The
    /// first [`GF10_VOUCHERS`] winners form the first group handed back, the
    /// remaining [`FP5_VOUCHERS`] the second.
    pub fn draw_vouchers(&mut self, participants: &Vec<Participant>) -> (res: Result<
        (Vec<u32>, Vec<u32>),
        DrawError,
    >)
        requires
            old(self).wf(participants@.len()),
        ensures
            final(self).wf(participants@.len()),
            final(self)@ == old(self)@.after_vouchers(participants@, VOUCHERS as nat),
            res is Ok <==> old(self)@.voucher_winners(participants@, VOUCHERS as nat).len()
                == VOUCHERS,
            res matches Ok(groups) ==> {
                let all = old(self)@.voucher_winners(participants@, VOUCHERS as nat);
                &&& groups.0@ == all.take(GF10_VOUCHERS as int)
                &&& groups.1@ == all.skip(GF10_VOUCHERS as int)
            },
            res matches Err(e) ==> e == DrawError::PoolExhausted,
    {
        match self.draw_skipped_first(participants, VOUCHERS) {
            Ok(all) => {
                let mut first = all;
                let second = first.split_off(GF10_VOUCHERS);
                Ok((first, second))
            },
            Err(e) => Err(e),
        }
    }
}

/// The winners of a raffle, tier by tier, each list in the order drawn.
#[derive(Debug, PartialEq, Eq)]
pub struct Winners {
    /// Winners of the grand prizes.
    pub grand: Vec<u32>,
    /// Winners of the consolation prizes.
    pub consolation: Vec<u32>,
    /// Winners of the vouchers of the first group.
    pub vouchers_gf10: Vec<u32>,
    /// Winners of the vouchers of the second group.
    pub vouchers_fp5: Vec<u32>,
}

/// The winners of a raffle as a mathematical value.
pub struct WinnerLists {
    /// Winners of the grand prizes.
    pub grand: Seq<u32>,
    /// Winners of the consolation prizes.
    pub consolation: Seq<u32>,
    /// Winners of the vouchers of the first group.
    pub vouchers_gf10: Seq<u32>,
    /// Winners of the vouchers of the second group.
    pub vouchers_fp5: Seq<u32>,
}

impl WinnerLists {
    /// Both voucher groups, the first group in front.
    pub open spec fn vouchers(self) -> Seq<u32> {
        self.vouchers_gf10 + self.vouchers_fp5
    }

    /// Everybody who won, in the order drawn.
    pub open spec fn all(self) -> Seq<u32> {
        self.grand + self.consolation + self.vouchers()
    }
}

impl View for Winners {
    type V = WinnerLists;

    open spec fn view(&self) -> WinnerLists {
        WinnerLists {
            grand: self.grand@,
            consolation: self.consolation@,
            vouchers_gf10: self.vouchers_gf10@,
            vouchers_fp5: self.vouchers_fp5@,
        }
    }
}

/// The state in which the consolation tier starts on `pool`.
pub open spec fn state_after_grand(participants: Seq<Participant>, pool: Seq<usize>) -> DrawState {
    DrawState::start(pool).after_pool_tier(participants, Eligibility::Any, GRAND_PRIZES as nat)
}

/// The state in which the voucher tier starts on `pool`.
pub open spec fn state_after_consolation(
    participants: Seq<Participant>,
    pool: Seq<usize>,
) -> DrawState {
    state_after_grand(participants, pool).after_pool_tier(
        participants,
        Eligibility::NoPriorWin,
        CONSOLATION_PRIZES as nat,
    )
}

/// The state in which the raffle on `pool` ends.
pub open spec fn state_after_vouchers(
    participants: Seq<Participant>,
    pool: Seq<usize>,
) -> DrawState {
    state_after_consolation(participants, pool).after_vouchers(participants, VOUCHERS as nat)
}

/// The winners of the raffle on `pool`, whose front is its first entry, or
/// `None` if the tickets run out before a tier has found all its winners.
pub open spec fn draw_outcome(participants: Seq<Participant>, pool: Seq<usize>) -> Option<
    WinnerLists,
> {
    let grand = DrawState::start(pool).pool_tier(
        participants,
        Eligibility::Any,
        GRAND_PRIZES as nat,
    ).winners;
    let consolation = state_after_grand(participants, pool).pool_tier(
        participants,
        Eligibility::NoPriorWin,
        CONSOLATION_PRIZES as nat,
    ).winners;
    let vouchers = state_after_consolation(participants, pool).voucher_winners(
        participants,
        VOUCHERS as nat,
    );
    if grand.len() == GRAND_PRIZES && consolation.len() == CONSOLATION_PRIZES && vouchers.len()
        == VOUCHERS {
        Some(
            WinnerLists {
                grand,
                consolation,
                vouchers_gf10: vouchers.take(GF10_VOUCHERS as int),
                vouchers_fp5: vouchers.skip(GF10_VOUCHERS as int),
            },
        )
    } else {
        None
    }
}

/// Draws all three tiers on `pool`, whose front is its first entry.
///
/// Fails with [`DrawError::PoolExhausted`] if the tickets run out before a
/// tier has found all its winners.
pub fn draw(participants: &Vec<Participant>, pool: Vec<usize>) -> (res: Result<Winners, DrawError>)
    requires
        valid_tickets(pool@, participants@.len()),
    ensures
        res matches Ok(winners) ==> draw_outcome(participants@, pool@) == Some(winners@),
        res matches Err(e) ==> draw_outcome(participants@, pool@) is None && e
            == DrawError::PoolExhausted,
        res matches Ok(winners) ==> {
            &&& winners@.all().no_duplicates()
            &&& winners.grand@.len() == GRAND_PRIZES
            &&& winners.consolation@.len() == CONSOLATION_PRIZES
            &&& winners.vouchers_gf10@.len() == GF10_VOUCHERS
            &&& winners.vouchers_fp5@.len() == FP5_VOUCHERS
            &&& forall|i: int|
                0 <= i < winners.consolation@.len() ==> holds_ticket(
                    participants@,
                    pool@,
                    #[trigger] winners.consolation@[i],
                    Eligibility::NoPriorWin,
                )
        },
        res matches Ok(winners) ==> (distinct_ids(participants@) ==> forall|j: int|
            0 <= j < participants@.len() && !(#[trigger] participants@[j]).eligible()
                ==> !winners.consolation@.contains(participants@[j].id)),
        candidates(participants@, pool@, Set::empty(), Eligibility::NoPriorWin).len() >= PRIZES
            ==> res is Ok,
        candidates(participants@, pool@, Set::empty(), Eligibility::Any).len() < PRIZES
            || candidates(participants@, pool@, Set::empty(), Eligibility::NoPriorWin).len()
            < CONSOLATION_PRIZES ==> res is Err,
{
    proof {
        lemma_nobody_wins_twice(participants@, pool@);
        lemma_every_prize_finds_a_winner(participants@, pool@);
        lemma_consolation_winners_are_eligible(participants@, pool@);
        if distinct_ids(participants@) {
            lemma_ineligible_win_no_consolation(participants@, pool@);
        }
        if candidates(participants@, pool@, Set::empty(), Eligibility::NoPriorWin).len()
            >= PRIZES {
            lemma_enough_candidates_complete_raffle(participants@, pool@);
        }
        if candidates(participants@, pool@, Set::empty(), Eligibility::Any).len() < PRIZES
            || candidates(participants@, pool@, Set::empty(), Eligibility::NoPriorWin).len()
            < CONSOLATION_PRIZES {
            lemma_few_candidates_fail_raffle(participants@, pool@);
        }
    }
    let mut drawer = Drawer::new(pool);
    let grand = match drawer.draw_grand_prizes(participants) {
        Ok(list) => list,
        Err(e) => {
            return Err(e);
        },
    };
    let consolation = match drawer.draw_consolation_prizes(participants) {
        Ok(list) => list,
        Err(e) => {
            return Err(e);
        },
    };
    let (vouchers_gf10, vouchers_fp5) = match drawer.draw_vouchers(participants) {
        Ok(groups) => groups,
        Err(e) => {
            return Err(e);
        },
    };
    // With every prize the set of winners has grown by one.
    assert(drawer.winners@.len() == PRIZES);
    Ok(Winners { grand, consolation, vouchers_gf10, vouchers_fp5 })
}

} // verus!
