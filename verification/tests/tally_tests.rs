use war_sim::game::{Game, GameState};
use war_sim::strategy::{Strategy, HighestFirst, LowestFirst};
use war_sim::tally::{compete, run_trial, starting_deck, GameCounts, MAX_STEPS};

fn ordered_decks() -> (Vec<u8>, Vec<u8>) {
    let mut a = starting_deck();
    let mut b = starting_deck();
    HighestFirst {}.order_cards(&mut a);
    LowestFirst {}.order_cards(&mut b);
    (a, b)
}

#[test]
fn starting_deck_has_two_of_each_rank() {
    let d = starting_deck();
    assert_eq!(d.len(), 26);
    for rank in 1u8..=13 {
        assert_eq!(d.iter().filter(|c| **c == rank).count(), 2);
    }
    assert_eq!(d[0], 1);
    assert_eq!(d[25], 13);
}

#[test]
fn identical_games_produce_identical_outcome_sequences() {
    let (a, b) = ordered_decks();
    let mut g1 = Game::new([a.clone(), b.clone()]);
    let mut g2 = Game::new([a, b]);
    let mut outcomes1: Vec<GameState> = Vec::new();
    let mut outcomes2: Vec<GameState> = Vec::new();
    for _ in 0..=MAX_STEPS {
        let r = g1.step();
        outcomes1.push(r);
        if r != GameState::Continue {
            break;
        }
    }
    for _ in 0..=MAX_STEPS {
        let r = g2.step();
        outcomes2.push(r);
        if r != GameState::Continue {
            break;
        }
    }
    assert_eq!(outcomes1, outcomes2);
    assert_ne!(*outcomes1.last().unwrap(), GameState::Continue);
}

#[test]
fn deterministic_trial_fits_step_budget() {
    let (a, b) = ordered_decks();
    let mut game = Game::new([a, b]);
    let r = run_trial(&mut game, MAX_STEPS);
    assert!(r.is_some());
    assert_ne!(r, Some(GameState::Continue));
}

#[test]
fn mirror_match_ties_within_budget() {
    // Two identically sorted decks tie every comparison until both
    // hands run out: the game ends drawn, well inside the ceiling.
    let r = compete(HighestFirst {}, HighestFirst {}, 1);
    assert_eq!(r, Some(GameCounts { wins: 0, ties: 1, loss: 0 }));
}

#[test]
fn compete_counts_sum_to_game_count() {
    let r = compete(HighestFirst {}, LowestFirst {}, 3).unwrap();
    assert_eq!(r.wins + r.ties + r.loss, 3);
}

#[test]
fn compete_is_reproducible_for_deterministic_strategies() {
    let r1 = compete(HighestFirst {}, LowestFirst {}, 2);
    let r2 = compete(HighestFirst {}, LowestFirst {}, 2);
    assert!(r1.is_some());
    assert_eq!(r1, r2);
    // All trials of the same deterministic pairing end alike.
    let c = r1.unwrap();
    assert!(c.wins == 2 || c.ties == 2 || c.loss == 2);
}

#[test]
fn tiny_budget_flags_runaway() {
    let (a, b) = ordered_decks();
    let mut game = Game::new([a, b]);
    // A single allowed round cannot finish a 26-card game.
    let r = run_trial(&mut game, 1);
    assert_eq!(r, None);
}
