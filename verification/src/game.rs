//! The round resolver: a two-player game of War, one round per `step`
//! call, with the chained sacrifice tie-break. The whole of a round is
//! modelled by the spec function `resolve`, and `step` is proved to
//! produce exactly the modelled outcome, so a round is a pure function
//! of the two held card sequences.
use vstd::prelude::*;
use core::ops::Range;
use crate::hand::{Card, HistoryQueue};

verus! {

/// The outcome of one `step` call.
#[derive(Debug, Clone, Copy, PartialEq, Eq, Structural)]
pub enum GameState {
    /// The round resolved and more than one hand still holds cards.
    Continue,
    /// Every hand is empty: nobody can contest, the game ends drawn.
    Tie,
    /// Exactly one hand still holds cards: that player has won.
    Finish(usize),
}

/// The mathematical result of resolving one round: whether the round
/// ended with every hand exhausted, which seat won otherwise, and how
/// many cards each player laid face-up in the course of the round.
pub struct Resolution {
    pub tie: bool,
    pub winner: int,
    pub laid0: nat,
    pub laid1: nat,
}

/// One round of War over the held card sequences, as a recursion over
/// collect-and-compare iterations. `h0`/`h1` are the cards still held,
/// `in0`/`in1` whether each seat is still contesting this round, and
/// `laid0`/`laid1` how many cards each has laid face-up so far. Each
/// iteration, every contesting player lays their oldest held card; a
/// player whose hand is empty drops out of the round instead. With no
/// contestant left the round is a tie; with one, that seat wins; with
/// both, the higher card wins and equal cards start another iteration
/// (the sacrifice chain).
pub open spec fn resolve(
    h0: Seq<Card>,
    h1: Seq<Card>,
    in0: bool,
    in1: bool,
    laid0: nat,
    laid1: nat,
) -> Resolution
    decreases h0.len() + h1.len(),
{
    let in0p = in0 && h0.len() > 0;
    let in1p = in1 && h1.len() > 0;
    let l0 = if in0p { laid0 + 1 } else { laid0 };
    let l1 = if in1p { laid1 + 1 } else { laid1 };
    if !in0p && !in1p {
        Resolution { tie: true, winner: 0, laid0, laid1 }
    } else if in0p && !in1p {
        Resolution { tie: false, winner: 0, laid0: l0, laid1: l1 }
    } else if !in0p && in1p {
        Resolution { tie: false, winner: 1, laid0: l0, laid1: l1 }
    } else if h0.first() > h1.first() {
        Resolution { tie: false, winner: 0, laid0: l0, laid1: l1 }
    } else if h1.first() > h0.first() {
        Resolution { tie: false, winner: 1, laid0: l0, laid1: l1 }
    } else {
        resolve(h0.drop_first(), h1.drop_first(), true, true, l0, l1)
    }
}

/// The resolution of the next round of `g`, from a fresh round table.
pub open spec fn round_of(g: Game) -> Resolution {
    resolve(g.hands[0].held(), g.hands[1].held(), true, true, 0, 0)
}

/// Total cards currently held across both hands.
pub open spec fn total_held(g: Game) -> nat {
    g.hands[0].held_count() + g.hands[1].held_count()
}

/// The held sequences after a round with a winner: the winner keeps what
/// they did not lay and gains every laid card, the loser's pile first;
/// the loser keeps only what they did not lay.
pub open spec fn after_round(h0: Seq<Card>, h1: Seq<Card>) -> (Seq<Card>, Seq<Card>) {
    let r = resolve(h0, h1, true, true, 0, 0);
    let pile0 = h0.take(r.laid0 as int);
    let pile1 = h1.take(r.laid1 as int);
    if r.winner == 0 {
        (h0.skip(r.laid0 as int) + pile1 + pile0, h1.skip(r.laid1 as int))
    } else {
        (h0.skip(r.laid0 as int), h1.skip(r.laid1 as int) + pile0 + pile1)
    }
}

/// The terminal outcome of driving a game for at most `steps` rounds:
/// the result of the first round that is not `Continue`, or `None` if
/// every allowed round continues (a runaway game).
pub open spec fn play_out(h0: Seq<Card>, h1: Seq<Card>, steps: nat) -> Option<GameState>
    decreases steps,
{
    if steps == 0 {
        None
    } else {
        let r = resolve(h0, h1, true, true, 0, 0);
        if r.tie {
            Some(GameState::Tie)
        } else {
            let (g0, g1) = after_round(h0, h1);
            if g0.len() > 0 && g1.len() > 0 {
                play_out(g0, g1, (steps - 1) as nat)
            } else {
                Some(GameState::Finish(r.winner as usize))
            }
        }
    }
}

/// How a resolution relates to the hands it started from: each player
/// lays at most what they hold, a tie consumes every held card, and a
/// winner laid at least one card. `in0`/`in1` may only be cleared for a
/// hand that is already empty, as the resolver's collect phase does.
pub proof fn lemma_resolve_laid_bounds(
    h0: Seq<Card>,
    h1: Seq<Card>,
    in0: bool,
    in1: bool,
    laid0: nat,
    laid1: nat,
)
    requires
        !in0 ==> h0.len() == 0,
        !in1 ==> h1.len() == 0,
    ensures
        ({
            let r = resolve(h0, h1, in0, in1, laid0, laid1);
            &&& r.laid0 >= laid0
            &&& r.laid1 >= laid1
            &&& r.laid0 - laid0 <= h0.len()
            &&& r.laid1 - laid1 <= h1.len()
            &&& (r.tie ==> r.laid0 - laid0 == h0.len() && r.laid1 - laid1 == h1.len())
            &&& (!r.tie ==> r.winner == 0 || r.winner == 1)
            &&& (!r.tie && r.winner == 0 ==> r.laid0 > laid0)
            &&& (!r.tie && r.winner == 1 ==> r.laid1 > laid1)
        }),
    decreases h0.len() + h1.len(),
{
    let in0p = in0 && h0.len() > 0;
    let in1p = in1 && h1.len() > 0;
    if in0p && in1p && h0.first() == h1.first() {
        lemma_resolve_laid_bounds(h0.drop_first(), h1.drop_first(), true, true,
            laid0 + 1, laid1 + 1);
    }
}

/// Conservation: over a whole round, the cards that leave the hands are
/// exactly the cards laid face-up on the round table, so held cards plus
/// face-up cards always total the cards held when the round began; on a
/// tie every held card has been laid.
pub proof fn lemma_conservation(h0: Seq<Card>, h1: Seq<Card>)
    ensures
        ({
            let r = resolve(h0, h1, true, true, 0, 0);
            &&& r.laid0 <= h0.len()
            &&& r.laid1 <= h1.len()
            &&& (h0.len() - r.laid0) + (h1.len() - r.laid1) + r.laid0 + r.laid1
                == h0.len() + h1.len()
            &&& (r.tie ==> r.laid0 == h0.len() && r.laid1 == h1.len())
        }),
{
    lemma_resolve_laid_bounds(h0, h1, true, true, 0, 0);
}

/// Determinism: the resolution of a round is a function of the two held
/// card sequences alone, so two games whose hands hold the same cards in
/// the same order resolve their next round identically.
pub proof fn lemma_round_deterministic(g1: Game, g2: Game)
    requires
        g1.hands[0].held() == g2.hands[0].held(),
        g1.hands[1].held() == g2.hands[1].held(),
    ensures
        round_of(g1) == round_of(g2),
{
}

/// A game between two seats: the two hands, and for each hand the
/// append-only ledger of which history positions were held at the end
/// of each completed round.
pub struct Game {
    pub hands: [HistoryQueue; 2],
    pub hands_histories: [Vec<Range<usize>>; 2],
}

impl Game {
    pub open spec fn wf(&self) -> bool {
        self.hands[0].wf() && self.hands[1].wf()
    }

    /// Start a game from two pre-ordered starting hands. Each hand holds
    /// its whole starting sequence, and each ledger opens with the range
    /// covering that whole sequence.
    pub fn new(starting_hands: [Vec<Card>; 2]) -> (g: Game)
        ensures
            g.wf(),
            g.hands[0].hist() == starting_hands[0]@,
            g.hands[1].hist() == starting_hands[1]@,
            g.hands[0].held_count() == starting_hands[0]@.len(),
            g.hands[1].held_count() == starting_hands[1]@.len(),
            g.hands_histories[0]@.len() == 1,
            g.hands_histories[1]@.len() == 1,
            g.hands_histories[0]@[0].start == 0,
            g.hands_histories[0]@[0].end == starting_hands[0]@.len(),
            g.hands_histories[1]@[0].start == 0,
            g.hands_histories[1]@[0].end == starting_hands[1]@.len(),
    {
        let mut starting_hands = starting_hands;
        let mut v0: Vec<Card> = Vec::new();
        let mut v1: Vec<Card> = Vec::new();
        core::mem::swap(&mut v0, &mut starting_hands[0]);
        core::mem::swap(&mut v1, &mut starting_hands[1]);
        let h0 = HistoryQueue::from(v0);
        let h1 = HistoryQueue::from(v1);
        let r0 = h0.current_range();
        let r1 = h1.current_range();
        Game { hands: [h0, h1], hands_histories: [vec![r0], vec![r1]] }
    }

    /// Play one round: collect a card from each contesting hand, compare,
    /// chain sacrifice iterations on equal cards, and hand every card laid
    /// this round to the winner, the loser's pile first. The result and
    /// the new state are exactly those of the `resolve` model on the old
    /// held sequences, so a round is deterministic in the hands alone.
    pub fn step(&mut self) -> (r: GameState)
        requires
            old(self).wf(),
            old(self).hands[0].hist().len() + old(self).hands[1].hist().len()
                + old(self).hands[0].held_count() + old(self).hands[1].held_count() <= usize::MAX,
        ensures
            final(self).wf(),
            // A tie is reported exactly when the model ties, and then every
            // hand has been exhausted and nothing was recorded or returned.
            (round_of(*old(self)).tie <==> r is Tie),
            r is Tie ==> final(self).hands[0].held_count() == 0
                && final(self).hands[1].held_count() == 0
                && final(self).hands[0].hist() == old(self).hands[0].hist()
                && final(self).hands[1].hist() == old(self).hands[1].hist()
                && final(self).hands_histories == old(self).hands_histories,
            // All hands empty on entry is exactly the immediate-tie case.
            (old(self).hands[0].held_count() == 0 && old(self).hands[1].held_count() == 0)
                ==> r is Tie,
            // With a winner, the loser's laid cards are the consumed prefix
            // of their held window; the winner's hand gains every laid card,
            // the loser's pile first, and both ledgers gain the new range.
            !round_of(*old(self)).tie ==> ({
                let res = round_of(*old(self));
                let oh0 = old(self).hands[0];
                let oh1 = old(self).hands[1];
                let pile0 = oh0.held().take(res.laid0 as int);
                let pile1 = oh1.held().take(res.laid1 as int);
                &&& (res.winner == 0 || res.winner == 1)
                &&& res.laid0 <= oh0.held_count()
                &&& res.laid1 <= oh1.held_count()
                &&& (res.winner == 0 ==> res.laid0 >= 1
                    && final(self).hands[0].hist() == oh0.hist() + pile1 + pile0
                    && final(self).hands[0].held_count() == oh0.held_count() + res.laid1
                    && final(self).hands[1].hist() == oh1.hist()
                    && final(self).hands[1].held_count() == oh1.held_count() - res.laid1)
                &&& (res.winner == 1 ==> res.laid1 >= 1
                    && final(self).hands[1].hist() == oh1.hist() + pile0 + pile1
                    && final(self).hands[1].held_count() == oh1.held_count() + res.laid0
                    && final(self).hands[0].hist() == oh0.hist()
                    && final(self).hands[0].held_count() == oh0.held_count() - res.laid0)
                &&& total_held(*final(self)) == total_held(*old(self))
                &&& final(self).hands[0].held() == after_round(oh0.held(), oh1.held()).0
                &&& final(self).hands[1].held() == after_round(oh0.held(), oh1.held()).1
                &&& final(self).hands_histories[0]@
                    == old(self).hands_histories[0]@.push(final(self).hands[0].spec_start() as usize..final(self).hands[0].hist().len() as usize)
                &&& final(self).hands_histories[1]@
                    == old(self).hands_histories[1]@.push(final(self).hands[1].spec_start() as usize..final(self).hands[1].hist().len() as usize)
                &&& r == (if final(self).hands[0].held_count() > 0
                        && final(self).hands[1].held_count() > 0 {
                        GameState::Continue
                    } else {
                        GameState::Finish(res.winner as usize)
                    })
            }),
            // A finished game has exactly one non-empty hand, the winner's;
            // a continuing game still has two non-empty hands.
            r is Continue ==> final(self).hands[0].held_count() > 0
                && final(self).hands[1].held_count() > 0,
            r matches GameState::Finish(i) ==> i < 2
                && final(self).hands[i as int].held_count() > 0
                && final(self).hands[1 - i as int].held_count() == 0,
    {
        let mut in0: bool = true;
        let mut in1: bool = true;
        let mut pile0: Vec<Card> = Vec::new();
        let mut pile1: Vec<Card> = Vec::new();
        let mut winner: usize = 0;
        loop
            invariant_except_break
                self.hands[0].wf(),
                self.hands[1].wf(),
                self.hands[0].hist() == old(self).hands[0].hist(),
                self.hands[1].hist() == old(self).hands[1].hist(),
                self.hands_histories == old(self).hands_histories,
                old(self).hands[0].hist().len() + old(self).hands[1].hist().len()
                    + old(self).hands[0].held_count() + old(self).hands[1].held_count() <= usize::MAX,
                !in0 ==> self.hands[0].held_count() == 0,
                !in1 ==> self.hands[1].held_count() == 0,
                old(self).hands[0].held() == pile0@ + self.hands[0].held(),
                old(self).hands[1].held() == pile1@ + self.hands[1].held(),
                resolve(self.hands[0].held(), self.hands[1].held(), in0, in1,
                    pile0@.len(), pile1@.len()) == round_of(*old(self)),
            ensures
                self.hands[0].wf(),
                self.hands[1].wf(),
                self.hands[0].hist() == old(self).hands[0].hist(),
                self.hands[1].hist() == old(self).hands[1].hist(),
                self.hands_histories == old(self).hands_histories,
                old(self).hands[0].held() == pile0@ + self.hands[0].held(),
                old(self).hands[1].held() == pile1@ + self.hands[1].held(),
                !round_of(*old(self)).tie,
                round_of(*old(self)).winner == winner as int,
                winner == 0 || winner == 1,
                round_of(*old(self)).laid0 == pile0@.len(),
                round_of(*old(self)).laid1 == pile1@.len(),
                winner == 0 ==> pile0@.len() >= 1,
                winner == 1 ==> pile1@.len() >= 1,
            decreases
                self.hands[0].held_count() + self.hands[1].held_count(),
        {
            let ghost pre0 = self.hands[0].held();
            let ghost pre1 = self.hands[1].held();
            let ghost pin0 = in0;
            let ghost pin1 = in1;
            let ghost pl0 = pile0@.len();
            let ghost pl1 = pile1@.len();
            if in0 {
                match self.hands[0].pop() {
                    Some(c) => pile0.push(c),
                    None => { in0 = false; },
                }
            }
            if in1 {
                match self.hands[1].pop() {
                    Some(c) => pile1.push(c),
                    None => { in1 = false; },
                }
            }
            proof {
                assert(old(self).hands[0].held() =~= pile0@ + self.hands[0].held());
                assert(old(self).hands[1].held() =~= pile1@ + self.hands[1].held());
            }
            if !in0 && !in1 {
                proof {
                    assert(resolve(pre0, pre1, pin0, pin1, pl0, pl1)
                        == Resolution { tie: true, winner: 0, laid0: pl0, laid1: pl1 });
                }
                return GameState::Tie;
            }
            if !in1 {
                winner = 0;
                proof {
                    assert(resolve(pre0, pre1, pin0, pin1, pl0, pl1)
                        == Resolution { tie: false, winner: 0, laid0: pile0@.len(), laid1: pile1@.len() });
                }
                break;
            }
            if !in0 {
                winner = 1;
                proof {
                    assert(resolve(pre0, pre1, pin0, pin1, pl0, pl1)
                        == Resolution { tie: false, winner: 1, laid0: pile0@.len(), laid1: pile1@.len() });
                }
                break;
            }
            let c0 = pile0[pile0.len() - 1];
            let c1 = pile1[pile1.len() - 1];
            if c0 > c1 {
                winner = 0;
                proof {
                    assert(resolve(pre0, pre1, pin0, pin1, pl0, pl1)
                        == Resolution { tie: false, winner: 0, laid0: pile0@.len(), laid1: pile1@.len() });
                }
                break;
            }
            if c1 > c0 {
                winner = 1;
                proof {
                    assert(resolve(pre0, pre1, pin0, pin1, pl0, pl1)
                        == Resolution { tie: false, winner: 1, laid0: pile0@.len(), laid1: pile1@.len() });
                }
                break;
            }
            proof {
                assert(resolve(pre0, pre1, pin0, pin1, pl0, pl1)
                    == resolve(self.hands[0].held(), self.hands[1].held(), in0, in1,
                        pile0@.len(), pile1@.len()));
            }
        }
        proof {
            assert(pile0@ =~= old(self).hands[0].held().take(pile0@.len() as int));
            assert(pile1@ =~= old(self).hands[1].held().take(pile1@.len() as int));
        }
        if winner == 0 {
            self.hands[0].push_all(&pile1);
            self.hands[0].push_all(&pile0);
        } else {
            self.hands[1].push_all(&pile0);
            self.hands[1].push_all(&pile1);
        }
        let r0 = self.hands[0].current_range();
        self.hands_histories[0].push(r0);
        let r1 = self.hands[1].current_range();
        self.hands_histories[1].push(r1);
        proof {
            let res = round_of(*old(self));
            let h0 = old(self).hands[0].held();
            let h1 = old(self).hands[1].held();
            if winner == 0 {
                assert(self.hands[0].held()
                    =~= h0.skip(res.laid0 as int) + h1.take(res.laid1 as int)
                        + h0.take(res.laid0 as int));
                assert(self.hands[1].held() =~= h1.skip(res.laid1 as int));
            } else {
                assert(self.hands[1].held()
                    =~= h1.skip(res.laid1 as int) + h0.take(res.laid0 as int)
                        + h1.take(res.laid1 as int));
                assert(self.hands[0].held() =~= h0.skip(res.laid0 as int));
            }
        }
        let n0 = self.hands[0].len();
        let n1 = self.hands[1].len();
        if n0 > 0 && n1 > 0 {
            GameState::Continue
        } else if n0 > 0 {
            assert(winner == 0);
            GameState::Finish(0)
        } else {
            assert(winner == 1 && n1 > 0);
            GameState::Finish(1)
        }
    }
}

} // verus!
