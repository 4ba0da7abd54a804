use raffle::participant::Participant;
use raffle::pool::build_pool;
use raffle::pool::shuffled_pool;
use rand::seq::SliceRandom;
use rand::SeedableRng;
use rand_chacha::ChaCha12Rng;

fn entrant(id: u32, tickets: u32) -> Participant {
    Participant { id, tickets, submitted: true, won_prize: false }
}

fn five_with_one_heavy() -> Vec<Participant> {
    vec![entrant(1, 1), entrant(2, 1), entrant(3, 1), entrant(4, 1), entrant(5, 1000)]
}

#[test]
fn pool_repeats_each_participant_once_per_ticket() {
    let list = vec![entrant(10, 2), entrant(20, 0), entrant(30, 3), entrant(40, 1)];
    assert_eq!(build_pool(&list), vec![0, 0, 2, 2, 2, 3]);
}

#[test]
fn pool_of_nobody_is_empty() {
    assert_eq!(build_pool(&vec![]), Vec::<usize>::new());
}

#[test]
fn participant_without_tickets_has_no_entry() {
    let list = vec![entrant(1, 0), entrant(2, 0)];
    assert!(build_pool(&list).is_empty());
    assert!(shuffled_pool(&list, 7).is_empty());
}

#[test]
fn pool_keeps_the_order_of_the_list() {
    let pool = build_pool(&five_with_one_heavy());
    assert_eq!(pool.len(), 1004);
    assert_eq!(&pool[..4], &[0, 1, 2, 3]);
    assert!(pool[4..].iter().all(|t| *t == 4));
    assert!(pool.windows(2).all(|w| w[0] <= w[1]));
}

#[test]
fn shuffled_pool_holds_the_same_tickets() {
    let list = vec![entrant(1, 5), entrant(2, 7), entrant(3, 0), entrant(4, 11)];
    let mut shuffled = shuffled_pool(&list, 0xfeed);
    shuffled.sort();
    assert_eq!(shuffled, build_pool(&list));
}

#[test]
fn shuffled_pool_is_rearranged() {
    let list: Vec<Participant> = (0..200).map(|i| entrant(i, 1)).collect();
    let plain = build_pool(&list);
    let shuffled = shuffled_pool(&list, 1);
    assert_eq!(shuffled.len(), plain.len());
    assert_ne!(shuffled, plain);
}

#[test]
fn same_seed_gives_the_same_order() {
    let list = five_with_one_heavy();
    assert_eq!(shuffled_pool(&list, 0x1), shuffled_pool(&list, 0x1));
    let many: Vec<Participant> = (0..300).map(|i| entrant(i, 1 + i % 4)).collect();
    assert_eq!(shuffled_pool(&many, 0xabcdef), shuffled_pool(&many, 0xabcdef));
}

#[test]
fn other_seed_gives_another_order() {
    let many: Vec<Participant> = (0..300).map(|i| entrant(i, 1)).collect();
    assert_ne!(shuffled_pool(&many, 1), shuffled_pool(&many, 2));
}

#[test]
fn order_is_that_of_a_chacha12_shuffle() {
    let list: Vec<Participant> = (0..50).map(|i| entrant(i, 1 + i % 3)).collect();
    for seed in [0u64, 1, 0x2a, u64::MAX] {
        let mut expected = build_pool(&list);
        expected.shuffle(&mut ChaCha12Rng::seed_from_u64(seed));
        assert_eq!(shuffled_pool(&list, seed), expected);
    }
}

#[test]
fn heavy_ticket_holder_comes_first_under_seed_one() {
    let list = five_with_one_heavy();
    let pool = shuffled_pool(&list, 0x1);
    assert_eq!(list[pool[0]].id, 5);
}

#[test]
fn pool_is_valid_when_every_ticket_names_a_participant() {
    assert!(raffle::pool::is_valid_pool(&vec![], 0));
    assert!(raffle::pool::is_valid_pool(&vec![0, 2, 1, 2], 3));
    assert!(!raffle::pool::is_valid_pool(&vec![0, 3, 1], 3));
    assert!(!raffle::pool::is_valid_pool(&vec![0], 0));
    let list = five_with_one_heavy();
    assert!(raffle::pool::is_valid_pool(&shuffled_pool(&list, 3), list.len()));
}
