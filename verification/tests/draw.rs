use raffle::draw::draw;
use raffle::draw::draw_next;
use raffle::draw::draw_tier;
use raffle::draw::DrawError;
use raffle::draw::Drawer;
use raffle::draw::Drawn;
use raffle::draw::Eligibility;
use raffle::draw::CONSOLATION_PRIZES;
use raffle::draw::FP5_VOUCHERS;
use raffle::draw::GF10_VOUCHERS;
use raffle::draw::GRAND_PRIZES;
use raffle::draw::PRIZES;
use raffle::draw::VOUCHERS;
use raffle::participant::has_distinct_ids;
use raffle::participant::Participant;
use std::collections::HashSet;
use std::collections::VecDeque;

fn member(id: u32, submitted: bool, won_prize: bool) -> Participant {
    Participant { id, tickets: 1, submitted, won_prize }
}

fn crowd(n: u32) -> Vec<Participant> {
    (0..n).map(|i| member(1000 + i, true, false)).collect()
}

fn line(tickets: &[usize]) -> VecDeque<usize> {
    tickets.iter().copied().collect()
}

#[test]
fn prize_counts_are_as_announced() {
    assert_eq!(GRAND_PRIZES, 3);
    assert_eq!(CONSOLATION_PRIZES, 19);
    assert_eq!(GF10_VOUCHERS, 49);
    assert_eq!(FP5_VOUCHERS, 356);
    assert_eq!(VOUCHERS, 405);
    assert_eq!(PRIZES, 427);
}

#[test]
fn eligibility_asks_for_submission_and_no_prior_win() {
    assert!(member(1, true, false).is_eligible());
    assert!(!member(1, false, false).is_eligible());
    assert!(!member(1, true, true).is_eligible());
    assert!(!member(1, false, true).is_eligible());
    assert!(Eligibility::Any.accepts(&member(1, false, true)));
    assert!(Eligibility::NoPriorWin.accepts(&member(1, true, false)));
    assert!(!Eligibility::NoPriorWin.accepts(&member(1, false, false)));
    assert!(!Eligibility::NoPriorWin.accepts(&member(1, true, true)));
}

#[test]
fn next_ticket_of_an_empty_queue_is_none() {
    let list = crowd(2);
    let mut queue = VecDeque::new();
    let mut winners = HashSet::new();
    assert_eq!(draw_next(&list, &mut queue, &mut winners, Eligibility::Any), None);
    assert!(queue.is_empty());
    assert!(winners.is_empty());
}

#[test]
fn next_ticket_wins_burns_or_is_rejected() {
    let list = vec![member(7, true, false), member(8, false, false), member(9, true, true)];
    let mut queue = line(&[0, 0, 1, 2, 1]);
    let mut winners = HashSet::new();
    let rule = Eligibility::NoPriorWin;
    assert_eq!(draw_next(&list, &mut queue, &mut winners, rule), Some(Drawn::Winner(7)));
    assert_eq!(draw_next(&list, &mut queue, &mut winners, rule), Some(Drawn::Burned));
    assert_eq!(draw_next(&list, &mut queue, &mut winners, rule), Some(Drawn::Rejected(1)));
    assert_eq!(draw_next(&list, &mut queue, &mut winners, rule), Some(Drawn::Rejected(2)));
    assert_eq!(
        draw_next(&list, &mut queue, &mut winners, Eligibility::Any),
        Some(Drawn::Winner(8))
    );
    assert_eq!(draw_next(&list, &mut queue, &mut winners, rule), None);
    assert_eq!(winners, HashSet::from([7, 8]));
}

#[test]
fn tier_records_winners_in_draw_order_and_stops_when_full() {
    let list = crowd(5);
    let mut queue = line(&[3, 3, 1, 3, 4, 1, 0, 2]);
    let mut winners = HashSet::new();
    let drawn = draw_tier(&list, &mut queue, &mut winners, Eligibility::Any, 3);
    assert_eq!(drawn.winners, vec![1003, 1001, 1004]);
    assert!(drawn.skipped.is_empty());
    assert_eq!(queue, line(&[1, 0, 2]));
    assert_eq!(winners, HashSet::from([1003, 1001, 1004]));
}

#[test]
fn tier_asked_for_nothing_takes_no_ticket() {
    let list = crowd(2);
    let mut queue = line(&[0, 1]);
    let mut winners = HashSet::new();
    let drawn = draw_tier(&list, &mut queue, &mut winners, Eligibility::Any, 0);
    assert!(drawn.winners.is_empty());
    assert_eq!(queue, line(&[0, 1]));
}

#[test]
fn tier_that_runs_out_hands_back_what_it_found() {
    let list = crowd(3);
    let mut queue = line(&[2, 2, 0, 2]);
    let mut winners = HashSet::new();
    let drawn = draw_tier(&list, &mut queue, &mut winners, Eligibility::Any, 3);
    assert_eq!(drawn.winners, vec![1002, 1000]);
    assert!(queue.is_empty());
}

#[test]
fn filtered_tier_sets_tickets_aside_without_marking_winners() {
    let list = vec![
        member(1, false, false),
        member(2, true, false),
        member(3, true, true),
        member(4, true, false),
    ];
    let mut queue = line(&[0, 1, 0, 2, 1, 3, 0]);
    let mut winners = HashSet::new();
    let drawn = draw_tier(&list, &mut queue, &mut winners, Eligibility::NoPriorWin, 2);
    assert_eq!(drawn.winners, vec![2, 4]);
    assert_eq!(drawn.skipped, vec![0, 0, 2]);
    assert_eq!(queue, line(&[0]));
    assert_eq!(winners, HashSet::from([2, 4]));
}

#[test]
fn earlier_winners_are_burned_in_later_tiers() {
    let list = crowd(4);
    let mut drawer = Drawer::new(vec![0, 1, 0, 1, 2, 0, 3]);
    assert_eq!(drawer.draw_from_pool(&list, Eligibility::Any, 2), Ok(vec![1000, 1001]));
    assert_eq!(drawer.draw_from_pool(&list, Eligibility::NoPriorWin, 2), Ok(vec![1002, 1003]));
    assert!(drawer.pool.is_empty());
    assert!(drawer.skipped.is_empty());
    assert_eq!(drawer.winners.len(), 4);
}

#[test]
fn pool_tier_fails_when_tickets_run_out() {
    let list = crowd(2);
    let mut drawer = Drawer::new(vec![0, 1, 1, 0]);
    assert_eq!(drawer.draw_grand_prizes(&list), Err(DrawError::PoolExhausted));
}

#[test]
fn nobody_submitted_so_consolation_tier_runs_dry() {
    let list: Vec<Participant> = (0..30).map(|i| member(i, false, false)).collect();
    let mut drawer = Drawer::new((0..30).collect());
    assert_eq!(drawer.draw_grand_prizes(&list), Ok(vec![0, 1, 2]));
    assert_eq!(drawer.draw_consolation_prizes(&list), Err(DrawError::PoolExhausted));
    assert!(drawer.pool.is_empty());
    assert_eq!(drawer.skipped, (3..30).collect::<VecDeque<usize>>());
    assert_eq!(draw(&list, (0..30).collect()), Err(DrawError::PoolExhausted));
}

#[test]
fn skipped_tickets_come_up_before_the_main_pool() {
    let list = vec![
        member(1, true, false),
        member(2, false, false),
        member(3, true, true),
        member(4, true, false),
        member(5, true, false),
    ];
    let mut drawer = Drawer::new(vec![1, 2, 1, 0, 3, 4]);
    assert_eq!(drawer.draw_from_pool(&list, Eligibility::NoPriorWin, 1), Ok(vec![1]));
    assert_eq!(drawer.skipped, line(&[1, 2, 1]));
    assert_eq!(drawer.pool, line(&[3, 4]));
    assert_eq!(drawer.draw_skipped_first(&list, 3), Ok(vec![2, 3, 4]));
    assert!(drawer.skipped.is_empty());
    assert_eq!(drawer.pool, line(&[4]));
}

#[test]
fn voucher_tier_leaves_unneeded_skipped_tickets_in_place() {
    let list = vec![member(1, false, false), member(2, false, true), member(3, true, false)];
    let mut drawer = Drawer::new(vec![0, 1, 0, 2, 2]);
    assert_eq!(drawer.draw_from_pool(&list, Eligibility::NoPriorWin, 1), Ok(vec![3]));
    assert_eq!(drawer.draw_skipped_first(&list, 1), Ok(vec![1]));
    assert_eq!(drawer.skipped, line(&[1, 0]));
    assert_eq!(drawer.pool, line(&[2]));
}

#[test]
fn voucher_tier_fails_when_both_queues_run_out() {
    let list = vec![member(1, false, false), member(2, true, false)];
    let mut drawer = Drawer::new(vec![0, 1, 0]);
    assert_eq!(drawer.draw_from_pool(&list, Eligibility::NoPriorWin, 1), Ok(vec![2]));
    assert_eq!(drawer.draw_skipped_first(&list, 2), Err(DrawError::PoolExhausted));
    assert!(drawer.skipped.is_empty());
    assert!(drawer.pool.is_empty());
}

#[test]
fn participants_sharing_an_identifier_win_once() {
    let list = vec![member(9, true, false), member(9, true, false), member(8, true, false)];
    let mut drawer = Drawer::new(vec![0, 1, 2]);
    assert_eq!(drawer.draw_from_pool(&list, Eligibility::Any, 2), Ok(vec![9, 8]));
}

#[test]
fn full_draw_in_list_order() {
    let list = crowd(500);
    let winners = draw(&list, (0..500).collect()).unwrap();
    assert_eq!(winners.grand, vec![1000, 1001, 1002]);
    assert_eq!(winners.consolation, (1003..1022).collect::<Vec<u32>>());
    assert_eq!(winners.vouchers_gf10, (1022..1071).collect::<Vec<u32>>());
    assert_eq!(winners.vouchers_fp5, (1071..1427).collect::<Vec<u32>>());
}

#[test]
fn full_draw_with_exactly_enough_participants() {
    let list = crowd(427);
    let winners = draw(&list, (0..427).rev().collect()).unwrap();
    assert_eq!(winners.grand.len(), 3);
    assert_eq!(winners.consolation.len(), 19);
    assert_eq!(winners.vouchers_gf10.len(), 49);
    assert_eq!(winners.vouchers_fp5.len(), 356);
    assert_eq!(winners.grand, vec![1426, 1425, 1424]);
    assert_eq!(winners.vouchers_fp5[355], 1000);
    assert_eq!(draw(&crowd(426), (0..426).collect()), Err(DrawError::PoolExhausted));
}

#[test]
fn ineligible_participants_win_vouchers_but_no_consolation_prize() {
    let mut list = crowd(600);
    for i in 0..100 {
        list[i].submitted = i % 2 == 1;
        list[i].won_prize = i % 2 == 1;
    }
    let winners = draw(&list, (0..600).collect()).unwrap();
    assert_eq!(winners.grand, vec![1000, 1001, 1002]);
    assert_eq!(winners.consolation, (1100..1119).collect::<Vec<u32>>());
    assert_eq!(&winners.vouchers_gf10[..], &(1003..1052).collect::<Vec<u32>>()[..]);
    assert_eq!(&winners.vouchers_fp5[..48], &(1052..1100).collect::<Vec<u32>>()[..]);
    assert_eq!(&winners.vouchers_fp5[48..], &(1119..1427).collect::<Vec<u32>>()[..]);
    for id in &winners.consolation {
        let owner = list.iter().find(|p| p.id == *id).unwrap();
        assert!(owner.submitted && !owner.won_prize);
    }
}

#[test]
fn nobody_wins_twice_in_a_full_draw() {
    let list = crowd(450);
    let pool: Vec<usize> = (0..4500).map(|k| (k * 7919) % 450).collect();
    let winners = draw(&list, pool).unwrap();
    let mut all = winners.grand.clone();
    all.extend(&winners.consolation);
    all.extend(&winners.vouchers_gf10);
    all.extend(&winners.vouchers_fp5);
    assert_eq!(all.len(), 427);
    let distinct: HashSet<u32> = all.iter().copied().collect();
    assert_eq!(distinct.len(), 427);
}

#[test]
fn shared_identifiers_are_found() {
    assert!(has_distinct_ids(&vec![]));
    assert!(has_distinct_ids(&crowd(50)));
    let mut list = crowd(50);
    list[49].id = list[0].id;
    assert!(!has_distinct_ids(&list));
    list[49].id = 7;
    list[20].id = 7;
    assert!(!has_distinct_ids(&list));
}
