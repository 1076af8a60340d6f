//! The trial harness: drives single games to their terminal outcome
//! under a step budget, and tallies outcomes over repeated trials of a
//! pair of strategies.
use vstd::prelude::*;
use crate::hand::Card;
use crate::game::{Game, GameState, play_out, after_round, total_held};
use crate::strategy::{Strategy, deterministic_strategy};

verus! {

broadcast use vstd::seq_lib::group_to_multiset_ensures;

/// The per-trial step ceiling: a game that is not resolved after this
/// many continuing rounds is a runaway simulation, a fatal configuration
/// error rather than a result.
pub const MAX_STEPS: usize = 100000;

/// Outcome tallies for a batch of trials, counted from the second
/// seat's point of view: `wins` counts the games that seat 1 won.
#[derive(Debug, Clone, Copy, PartialEq, Eq, Structural)]
pub struct GameCounts {
    pub wins: usize,
    pub ties: usize,
    pub loss: usize,
}

/// Drive one game until a round does not continue, calling `step` at
/// most `budget` times. Returns the terminal outcome, or `None` if every
/// allowed round continued; exactly the `play_out` model of the two
/// starting held sequences, so a trial's outcome is a function of the
/// hands the game began with.
pub fn run_trial(game: &mut Game, budget: usize) -> (r: Option<GameState>)
    requires
        old(game).wf(),
        old(game).hands[0].hist().len() + old(game).hands[1].hist().len()
            + (budget + 1) * total_held(*old(game)) <= usize::MAX,
    ensures
        final(game).wf(),
        r == play_out(old(game).hands[0].held(), old(game).hands[1].held(), budget as nat),
{
    let ghost oh0 = game.hands[0].held();
    let ghost oh1 = game.hands[1].held();
    let ghost ohist = game.hands[0].hist().len() + game.hands[1].hist().len();
    let ghost oheld = total_held(*old(game));
    let mut calls: usize = 0;
    loop
        invariant
            game.wf(),
            calls <= budget,
            oh0 == old(game).hands[0].held(),
            oh1 == old(game).hands[1].held(),
            ohist == old(game).hands[0].hist().len() + old(game).hands[1].hist().len(),
            oheld == total_held(*old(game)),
            ohist + (budget + 1) * oheld <= usize::MAX,
            total_held(*game) == oheld,
            game.hands[0].hist().len() + game.hands[1].hist().len()
                <= ohist + calls * oheld,
            play_out(oh0, oh1, budget as nat)
                == play_out(game.hands[0].held(), game.hands[1].held(),
                    (budget - calls) as nat),
        decreases budget - calls,
    {
        if calls == budget {
            return None;
        }
        let ghost h0 = game.hands[0].held();
        let ghost h1 = game.hands[1].held();
        proof {
            assert(game.hands[0].hist().len() + game.hands[1].hist().len()
                + total_held(*game) <= usize::MAX) by (nonlinear_arith)
                requires
                    game.hands[0].hist().len() + game.hands[1].hist().len()
                        <= ohist + calls * oheld,
                    total_held(*game) == oheld,
                    calls < budget,
                    ohist + (budget + 1) * oheld <= usize::MAX,
            {
            }
        }
        let outcome = game.step();
        match outcome {
            GameState::Continue => {
                proof {
                    assert(game.hands[0].held().len() == game.hands[0].held_count());
                    assert(game.hands[1].held().len() == game.hands[1].held_count());
                    assert(play_out(h0, h1, (budget - calls) as nat)
                        == play_out(game.hands[0].held(), game.hands[1].held(),
                            (budget - calls - 1) as nat));
                    assert(game.hands[0].hist().len() + game.hands[1].hist().len()
                        <= ohist + (calls + 1) * oheld) by (nonlinear_arith)
                        requires
                            game.hands[0].hist().len() + game.hands[1].hist().len()
                                <= ohist + calls * oheld + oheld,
                    {
                    }
                }
                calls = calls + 1;
            },
            GameState::Tie => {
                proof {
                    assert(play_out(h0, h1, (budget - calls) as nat)
                        == Some(GameState::Tie));
                }
                return Some(GameState::Tie);
            },
            GameState::Finish(i) => {
                proof {
                    assert(game.hands[0].held().len() == game.hands[0].held_count());
                    assert(game.hands[1].held().len() == game.hands[1].held_count());
                    assert(play_out(h0, h1, (budget - calls) as nat)
                        == Some(GameState::Finish(i as usize)));
                }
                return Some(GameState::Finish(i));
            },
        }
    }
}

/// The fresh starting deck as a sequence: two cards of each rank 1
/// through 13, lowest first.
pub open spec fn deck_spec() -> Seq<Card> {
    Seq::new(26, |i: int| (i / 2 + 1) as Card)
}

/// A fresh starting deck for one player: two cards of each rank 1
/// through 13, lowest first.
pub fn starting_deck() -> (r: Vec<Card>)
    ensures
        r@ == deck_spec(),
{
    let mut deck: Vec<Card> = Vec::new();
    let mut rank: u8 = 1;
    while rank <= 13
        invariant
            1 <= rank <= 14,
            deck@.len() == 2 * (rank - 1),
            forall|i: int| 0 <= i < deck@.len() ==> deck@[i] == (i / 2 + 1) as Card,
        decreases 14 - rank,
    {
        deck.push(rank);
        deck.push(rank);
        rank = rank + 1;
    }
    proof {
        assert(deck@ =~= deck_spec());
    }
    deck
}

/// The terminal outcome of one trial played from a pair of ordered
/// decks, under the step ceiling.
pub open spec fn trial_outcome(d0: Seq<Card>, d1: Seq<Card>) -> Option<GameState> {
    play_out(d0, d1, MAX_STEPS as nat)
}

/// How many of the ordered-deck pairs play out to outcome `o`.
pub open spec fn count_outcomes(ords: Seq<(Seq<Card>, Seq<Card>)>, o: GameState) -> nat
    decreases ords.len(),
{
    if ords.len() == 0 {
        0
    } else {
        count_outcomes(ords.drop_last(), o)
            + if trial_outcome(ords.last().0, ords.last().1) == Some(o) {
                1nat
            } else {
                0nat
            }
    }
}

proof fn lemma_count_push(ords: Seq<(Seq<Card>, Seq<Card>)>, pair: (Seq<Card>, Seq<Card>), o: GameState)
    ensures
        count_outcomes(ords.push(pair), o) == count_outcomes(ords, o)
            + if trial_outcome(pair.0, pair.1) == Some(o) { 1nat } else { 0nat },
{
    assert(ords.push(pair).drop_last() =~= ords);
    assert(ords.push(pair).last() == pair);
}

/// What a returned tally means: one ordered-deck pair per trial, each
/// deck the respective strategy's own reordering of the fresh deck,
/// every trial terminal within the ceiling, and each counter counting
/// the trials with its outcome: `wins` the games seat 1 won, `loss` the
/// games seat 0 won, `ties` the drawn games.
pub open spec fn tallies_trials<S1: Strategy, S2: Strategy>(
    player: S1,
    against: S2,
    game_count: nat,
    c: GameCounts,
    ords: Seq<(Seq<Card>, Seq<Card>)>,
) -> bool {
    &&& ords.len() == game_count
    &&& (forall|k: int| 0 <= k < ords.len()
            ==> player.reorders(deck_spec(), (#[trigger] ords[k]).0)
                && against.reorders(deck_spec(), ords[k].1)
                && trial_outcome(ords[k].0, ords[k].1) is Some)
    &&& c.wins == count_outcomes(ords, GameState::Finish(1))
    &&& c.loss == count_outcomes(ords, GameState::Finish(0))
    &&& c.ties == count_outcomes(ords, GameState::Tie)
}

/// Run `game_count` trials of `player` (seat 0) against `against`
/// (seat 1), each from a fresh pair of decks ordered by the respective
/// strategy, and tally the outcomes: `wins` counts the games seat 1 won,
/// `loss` the games seat 0 won, `ties` the drawn games. `None` reports a
/// runaway trial that exceeded the step ceiling, a fatal configuration
/// error.
pub fn compete<S1: Strategy, S2: Strategy>(player: S1, against: S2, game_count: usize)
    -> (r: Option<GameCounts>)
    ensures
        r matches Some(c) ==> c.wins + c.ties + c.loss == game_count,
        game_count == 0 ==> r == Some(GameCounts { wins: 0, ties: 0, loss: 0 }),
        r is Some ==> exists|ords: Seq<(Seq<Card>, Seq<Card>)>|
            #[trigger] tallies_trials(player, against, game_count as nat, r->Some_0, ords),
        r is None ==> exists|d0: Seq<Card>, d1: Seq<Card>|
            #[trigger] player.reorders(deck_spec(), d0)
                && #[trigger] against.reorders(deck_spec(), d1)
                && trial_outcome(d0, d1) is None,
{
    let mut res = GameCounts { wins: 0, ties: 0, loss: 0 };
    let mut g: usize = 0;
    let ghost mut ords: Seq<(Seq<Card>, Seq<Card>)> = Seq::empty();
    while g < game_count
        invariant
            g <= game_count,
            res.wins + res.ties + res.loss == g,
            ords.len() == g,
            forall|k: int| 0 <= k < ords.len()
                ==> player.reorders(deck_spec(), (#[trigger] ords[k]).0)
                    && against.reorders(deck_spec(), ords[k].1)
                    && trial_outcome(ords[k].0, ords[k].1) is Some,
            res.wins == count_outcomes(ords, GameState::Finish(1)),
            res.loss == count_outcomes(ords, GameState::Finish(0)),
            res.ties == count_outcomes(ords, GameState::Tie),
        decreases game_count - g,
    {
        let mut player_deck = starting_deck();
        let mut against_deck = starting_deck();
        player.order_cards(&mut player_deck);
        against.order_cards(&mut against_deck);
        proof {
            assert(player_deck@.len() == player_deck@.to_multiset().len());
            assert(deck_spec().len() == deck_spec().to_multiset().len());
            assert(against_deck@.len() == against_deck@.to_multiset().len());
        }
        let ghost pair = (player_deck@, against_deck@);
        let mut game = Game::new([player_deck, against_deck]);
        let ghost th0 = game.hands[0].held();
        let ghost th1 = game.hands[1].held();
        proof {
            assert(th0 =~= pair.0);
            assert(th1 =~= pair.1);
        }
        let outcome = run_trial(&mut game, MAX_STEPS);
        proof {
            lemma_count_push(ords, pair, GameState::Finish(1));
            lemma_count_push(ords, pair, GameState::Finish(0));
            lemma_count_push(ords, pair, GameState::Tie);
        }
        match outcome {
            None => {
                proof {
                    assert(player.reorders(deck_spec(), pair.0)
                        && against.reorders(deck_spec(), pair.1)
                        && trial_outcome(pair.0, pair.1) is None);
                }
                return None;
            },
            Some(GameState::Continue) => {
                proof {
                    lemma_play_out_terminal(th0, th1, MAX_STEPS as nat);
                }
                assert(false);
            },
            Some(GameState::Tie) => {
                res.ties = res.ties + 1;
                proof {
                    assert(trial_outcome(pair.0, pair.1) == Some(GameState::Tie));
                    ords = ords.push(pair);
                }
            },
            Some(GameState::Finish(i)) => {
                proof {
                    lemma_play_out_terminal(pair.0, pair.1, MAX_STEPS as nat);
                    assert(trial_outcome(pair.0, pair.1) == Some(GameState::Finish(i)));
                }
                if i == 1 {
                    res.wins = res.wins + 1;
                } else {
                    res.loss = res.loss + 1;
                }
                proof {
                    ords = ords.push(pair);
                }
            },
        }
        g = g + 1;
    }
    let r = Some(res);
    proof {
        assert(r->Some_0 == res);
        assert(tallies_trials(player, against, game_count as nat, r->Some_0, ords));
        assert(exists|o: Seq<(Seq<Card>, Seq<Card>)>|
            #[trigger] tallies_trials(player, against, game_count as nat, r->Some_0, o));
    }
    r
}

/// Reproducibility at the harness level: when both strategies are
/// deterministic, any two tallies accounting for the same number of
/// trials of the pairing agree — so repeated `compete` runs of, say,
/// the two sorting policies return equal counts, with the whole batch
/// landing in a single counter.
pub proof fn lemma_tallies_deterministic<S1: Strategy, S2: Strategy>(
    player: S1,
    against: S2,
    n: nat,
    c1: GameCounts,
    o1: Seq<(Seq<Card>, Seq<Card>)>,
    c2: GameCounts,
    o2: Seq<(Seq<Card>, Seq<Card>)>,
)
    requires
        deterministic_strategy(player),
        deterministic_strategy(against),
        tallies_trials(player, against, n, c1, o1),
        tallies_trials(player, against, n, c2, o2),
    ensures
        c1 == c2,
{
    assert forall|k: int| 0 <= k < o1.len() implies o1[k] == o2[k] by {
        assert(player.reorders(deck_spec(), o1[k].0));
        assert(player.reorders(deck_spec(), o2[k].0));
        assert(against.reorders(deck_spec(), o1[k].1));
        assert(against.reorders(deck_spec(), o2[k].1));
        assert(o1[k].0 == o2[k].0);
        assert(o1[k].1 == o2[k].1);
    }
    assert(o1 =~= o2);
}

/// A trial never reports `Continue`, and a reported winner is one of
/// the two seats: the driver only stops on a round that did not
/// continue, or on an exhausted budget.
pub proof fn lemma_play_out_terminal(h0: Seq<Card>, h1: Seq<Card>, steps: nat)
    ensures
        play_out(h0, h1, steps) != Some(GameState::Continue),
        play_out(h0, h1, steps) matches Some(GameState::Finish(i)) ==> i == 0 || i == 1,
    decreases steps,
{
    if steps > 0 {
        let r = crate::game::resolve(h0, h1, true, true, 0, 0);
        if !r.tie {
            crate::game::lemma_resolve_laid_bounds(h0, h1, true, true, 0, 0);
            let (g0, g1) = after_round(h0, h1);
            if g0.len() > 0 && g1.len() > 0 {
                lemma_play_out_terminal(g0, g1, (steps - 1) as nat);
            }
        }
    }
}

} // verus!
