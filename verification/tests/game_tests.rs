use war_sim::game::{Game, GameState};

fn descending_deck() -> Vec<u8> {
    let mut v = Vec::new();
    for rank in (1u8..=13).rev() {
        v.push(rank);
        v.push(rank);
    }
    v
}

fn ascending_deck() -> Vec<u8> {
    let mut v = Vec::new();
    for rank in 1u8..=13 {
        v.push(rank);
        v.push(rank);
    }
    v
}

#[test]
fn new_game_initial_state() {
    let g = Game::new([vec![1u8, 2], vec![3u8]]);
    assert_eq!(g.hands[0].len(), 2);
    assert_eq!(g.hands[1].len(), 1);
    assert_eq!(g.hands[0].history(), &[1u8, 2]);
    assert_eq!(g.hands[1].history(), &[3u8]);
    assert_eq!(g.hands_histories[0].len(), 1);
    assert_eq!(g.hands_histories[0][0], 0..2);
    assert_eq!(g.hands_histories[1][0], 0..1);
}

#[test]
fn descending_beats_ascending_first_round() {
    let mut g = Game::new([descending_deck(), ascending_deck()]);
    let r = g.step();
    assert_eq!(r, GameState::Continue);
    // seat 0 played 13, seat 1 played 1; seat 0 collects both cards,
    // the loser's pile first.
    assert_eq!(g.hands[0].len(), 27);
    assert_eq!(g.hands[1].len(), 25);
    let hist0 = g.hands[0].history();
    assert_eq!(hist0.len(), 28);
    assert_eq!(hist0[26], 1);
    assert_eq!(hist0[27], 13);
}

#[test]
fn sacrifice_consumes_second_card_and_winner_takes_all_four() {
    // Both top cards are 7: each hand lays a second card, and 9 beats 5.
    let mut g = Game::new([vec![7u8, 9, 2, 2], vec![7u8, 5, 3]]);
    let r = g.step();
    assert_eq!(r, GameState::Continue);
    // Seat 0 laid [7, 9], seat 1 laid [7, 5]; seat 0 receives all four.
    assert_eq!(g.hands[0].len(), 6);
    assert_eq!(g.hands[1].len(), 1);
    assert_eq!(g.hands[0].history(), &[7u8, 9, 2, 2, 7, 5, 7, 9]);
    assert_eq!(g.hands[1].history(), &[7u8, 5, 3]);
    assert_eq!(*g.hands[1].index(0), 3);
}

#[test]
fn tie_when_both_hands_empty_at_start() {
    let mut g = Game::new([Vec::new(), Vec::new()]);
    assert_eq!(g.step(), GameState::Tie);
    assert_eq!(g.hands[0].len(), 0);
    assert_eq!(g.hands[1].len(), 0);
    // Nothing is recorded for a round that ties out.
    assert_eq!(g.hands_histories[0].len(), 1);
    assert_eq!(g.hands_histories[1].len(), 1);
}

#[test]
fn tie_when_hands_exhaust_during_sacrifice() {
    // 7 against 7, then both hands are empty: nobody can contest.
    let mut g = Game::new([vec![7u8], vec![7u8]]);
    assert_eq!(g.step(), GameState::Tie);
    assert_eq!(g.hands[0].len(), 0);
    assert_eq!(g.hands[1].len(), 0);
}

#[test]
fn finish_leaves_single_nonempty_hand() {
    let mut g = Game::new([vec![5u8], vec![3u8]]);
    let r = g.step();
    assert_eq!(r, GameState::Finish(0));
    assert_eq!(g.hands[0].len(), 2);
    assert_eq!(g.hands[1].len(), 0);
    assert_eq!(g.hands[0].history(), &[5u8, 3, 5]);
}

#[test]
fn empty_hand_loses_round_without_laying() {
    // Seat 1 has nothing to lay: seat 0 wins the round with one card.
    let mut g = Game::new([vec![2u8, 8], Vec::new()]);
    let r = g.step();
    assert_eq!(r, GameState::Finish(0));
    assert_eq!(g.hands[0].len(), 2);
    assert_eq!(g.hands[0].history(), &[2u8, 8, 2]);
}

#[test]
fn winner_gains_what_losers_lay() {
    // One round, no sacrifice: each seat lays one card, winner nets one.
    let mut g = Game::new([vec![9u8, 4], vec![6u8, 11]]);
    let r = g.step();
    assert_eq!(r, GameState::Continue);
    assert_eq!(g.hands[0].len(), 3); // laid 1, received 2
    assert_eq!(g.hands[1].len(), 1); // laid 1, received 0
    assert_eq!(g.hands[0].history(), &[9u8, 4, 6, 9]);
}

#[test]
fn ledger_records_post_round_windows() {
    let mut g = Game::new([vec![9u8, 4], vec![6u8, 11]]);
    g.step();
    assert_eq!(g.hands_histories[0].len(), 2);
    assert_eq!(g.hands_histories[1].len(), 2);
    assert_eq!(g.hands_histories[0][1], 1..4);
    assert_eq!(g.hands_histories[1][1], 1..2);
}
