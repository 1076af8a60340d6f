//! Ordering strategies: each reorders a hand in place, once, before the
//! hand is dealt into a game. The engine relies on nothing beyond the
//! reordering being a permutation, which is the trait's contract.
use vstd::prelude::*;
use vstd::seq_lib::lemma_multiset_commutative;
use vstd::seq_lib::lemma_sorted_unique;
use vstd::multiset::Multiset;
use crate::hand::Card;

verus! {

broadcast use vstd::seq_lib::group_to_multiset_ensures, vstd::multiset::group_multiset_axioms;

/// An ordering policy. `order_cards` permutes the given cards in place;
/// the engine calls it exactly once per hand, at game construction.
pub trait Strategy {
    /// The relation this policy guarantees between the cards before and
    /// after one `order_cards` call: each implementation pins its own
    /// reordering here, and `order_cards` is proved to realize it.
    spec fn reorders(&self, before: Seq<Card>, after: Seq<Card>) -> bool;

    fn order_cards(&self, cards: &mut Vec<Card>)
        ensures
            final(cards)@.to_multiset() == old(cards)@.to_multiset(),
            self.reorders(old(cards)@, final(cards)@),
    ;
}

pub open spec fn sorted_desc(s: Seq<Card>) -> bool {
    forall|i: int, j: int| 0 <= i < j < s.len() ==> s[i] >= s[j]
}

pub open spec fn sorted_asc(s: Seq<Card>) -> bool {
    forall|i: int, j: int| 0 <= i < j < s.len() ==> s[i] <= s[j]
}

/// A sorted rearrangement is unique: two descending sequences holding
/// the same cards are the same sequence. So any two runs of a sorting
/// strategy on the same cards agree, which makes games between sorting
/// strategies reproducible.
pub proof fn lemma_sorted_desc_unique(s1: Seq<Card>, s2: Seq<Card>)
    requires
        sorted_desc(s1),
        sorted_desc(s2),
        s1.to_multiset() == s2.to_multiset(),
    ensures
        s1 == s2,
{
    let leq = |a: Card, b: Card| a >= b;
    assert(vstd::relations::sorted_by(s1, leq));
    assert(vstd::relations::sorted_by(s2, leq));
    lemma_sorted_unique(s1, s2, leq);
}

/// As `lemma_sorted_desc_unique`, for ascending order.
pub proof fn lemma_sorted_asc_unique(s1: Seq<Card>, s2: Seq<Card>)
    requires
        sorted_asc(s1),
        sorted_asc(s2),
        s1.to_multiset() == s2.to_multiset(),
    ensures
        s1 == s2,
{
    let leq = |a: Card, b: Card| a <= b;
    assert(vstd::relations::sorted_by(s1, leq));
    assert(vstd::relations::sorted_by(s2, leq));
    lemma_sorted_unique(s1, s2, leq);
}

proof fn lemma_insert_multiset(s: Seq<Card>, i: int, c: Card)
    requires
        0 <= i <= s.len(),
    ensures
        s.insert(i, c).to_multiset() == s.to_multiset().insert(c),
{
    let pre = s.take(i);
    let post = s.skip(i);
    assert(s.insert(i, c) =~= pre + (seq![c] + post));
    lemma_multiset_commutative(pre, seq![c] + post);
    lemma_multiset_commutative(seq![c], post);
    assert(s =~= pre + post);
    lemma_multiset_commutative(pre, post);
    assert(seq![c] =~= Seq::<Card>::empty().push(c));
    assert(seq![c].to_multiset() =~= Multiset::<Card>::empty().insert(c));
    assert(s.insert(i, c).to_multiset() =~= s.to_multiset().insert(c));
}

/// Sort the cards into descending order, highest first.
pub fn sort_descending(cards: &mut Vec<Card>)
    ensures
        final(cards)@.to_multiset() == old(cards)@.to_multiset(),
        sorted_desc(final(cards)@),
{
    let n = cards.len();
    let mut out: Vec<Card> = Vec::new();
    let mut i: usize = 0;
    while i < n
        invariant
            n == cards@.len(),
            i <= n,
            cards@ == old(cards)@,
            out@.len() == i,
            out@.to_multiset() == cards@.take(i as int).to_multiset(),
            sorted_desc(out@),
        decreases n - i,
    {
        let c = cards[i];
        let mut j: usize = 0;
        while j < out.len() && out[j] >= c
            invariant
                j <= out@.len(),
                forall|k: int| 0 <= k < j ==> out@[k] >= c,
            decreases out@.len() - j,
        {
            j = j + 1;
        }
        proof {
            lemma_insert_multiset(out@, j as int, c);
            assert(cards@.take(i + 1) =~= cards@.take(i as int).push(c));
            assert(cards@.take(i as int).push(c).to_multiset()
                =~= cards@.take(i as int).to_multiset().insert(c));
        }
        out.insert(j, c);
        i = i + 1;
    }
    proof {
        assert(cards@.take(n as int) =~= cards@);
    }
    *cards = out;
}

/// Sort the cards into ascending order, lowest first.
pub fn sort_ascending(cards: &mut Vec<Card>)
    ensures
        final(cards)@.to_multiset() == old(cards)@.to_multiset(),
        sorted_asc(final(cards)@),
{
    let n = cards.len();
    let mut out: Vec<Card> = Vec::new();
    let mut i: usize = 0;
    while i < n
        invariant
            n == cards@.len(),
            i <= n,
            cards@ == old(cards)@,
            out@.len() == i,
            out@.to_multiset() == cards@.take(i as int).to_multiset(),
            sorted_asc(out@),
        decreases n - i,
    {
        let c = cards[i];
        let mut j: usize = 0;
        while j < out.len() && out[j] <= c
            invariant
                j <= out@.len(),
                forall|k: int| 0 <= k < j ==> out@[k] <= c,
            decreases out@.len() - j,
        {
            j = j + 1;
        }
        proof {
            lemma_insert_multiset(out@, j as int, c);
            assert(cards@.take(i + 1) =~= cards@.take(i as int).push(c));
            assert(cards@.take(i as int).push(c).to_multiset()
                =~= cards@.take(i as int).to_multiset().insert(c));
        }
        out.insert(j, c);
        i = i + 1;
    }
    proof {
        assert(cards@.take(n as int) =~= cards@);
    }
    *cards = out;
}

/// Plays the lowest held cards first: sorts the hand ascending.
#[derive(Debug, Clone, Copy)]
pub struct LowestFirst {}

impl Strategy for LowestFirst {
    /// The ascending sort of the input.
    open spec fn reorders(&self, before: Seq<Card>, after: Seq<Card>) -> bool {
        after.to_multiset() == before.to_multiset() && sorted_asc(after)
    }

    fn order_cards(&self, cards: &mut Vec<Card>) {
        sort_ascending(cards)
    }
}

/// Plays the highest held cards first: sorts the hand descending.
#[derive(Debug, Clone, Copy)]
pub struct HighestFirst {}

impl Strategy for HighestFirst {
    /// The descending sort of the input.
    open spec fn reorders(&self, before: Seq<Card>, after: Seq<Card>) -> bool {
        after.to_multiset() == before.to_multiset() && sorted_desc(after)
    }

    fn order_cards(&self, cards: &mut Vec<Card>) {
        sort_descending(cards)
    }
}

#[verifier::external_type_specification]
#[verifier::external_body]
pub struct ExThreadRng(rand::rngs::ThreadRng);

/// Relies on rand::thread_rng: yields a handle to the thread-local
/// random generator. Nothing is claimed of it.
#[verifier::external_body]
fn fresh_rng() -> rand::rngs::ThreadRng {
    rand::thread_rng()
}

/// Relies on rand's SliceRandom::shuffle: a Fisher-Yates shuffle that
/// rearranges the slice in place by swaps, so whatever order comes out,
/// the cards are exactly those that went in.
#[verifier::external_body]
fn shuffle_cards(cards: &mut Vec<Card>, rng: &mut rand::rngs::ThreadRng)
    ensures
        final(cards)@.to_multiset() == old(cards)@.to_multiset(),
{
    rand::seq::SliceRandom::shuffle(cards.as_mut_slice(), rng)
}

/// Plays the cards in uniformly random order: shuffles the hand.
#[derive(Debug, Clone, Copy)]
pub struct Random {}

impl Strategy for Random {
    /// Some permutation; which one depends on the randomness drawn.
    open spec fn reorders(&self, before: Seq<Card>, after: Seq<Card>) -> bool {
        after.to_multiset() == before.to_multiset()
    }

    fn order_cards(&self, cards: &mut Vec<Card>) {
        let mut rng = fresh_rng();
        shuffle_cards(cards, &mut rng);
    }
}

/// A policy whose reordering is a function of the input alone: any two
/// outcomes it admits for the same cards are equal. Games between such
/// policies are reproducible run after run.
pub open spec fn deterministic_strategy<S: Strategy>(s: S) -> bool {
    forall|b: Seq<Card>, a1: Seq<Card>, a2: Seq<Card>|
        #[trigger] s.reorders(b, a1) && #[trigger] s.reorders(b, a2) ==> a1 == a2
}

/// The two sorting policies are deterministic: a sorted permutation of
/// given cards is unique.
pub proof fn lemma_sorting_strategies_deterministic()
    ensures
        deterministic_strategy(HighestFirst {}),
        deterministic_strategy(LowestFirst {}),
{
    assert forall|b: Seq<Card>, a1: Seq<Card>, a2: Seq<Card>|
        #[trigger] HighestFirst {}.reorders(b, a1) && #[trigger] HighestFirst {}.reorders(b, a2)
        implies a1 == a2 by {
        lemma_sorted_desc_unique(a1, a2);
    }
    assert forall|b: Seq<Card>, a1: Seq<Card>, a2: Seq<Card>|
        #[trigger] LowestFirst {}.reorders(b, a1) && #[trigger] LowestFirst {}.reorders(b, a2)
        implies a1 == a2 by {
        lemma_sorted_asc_unique(a1, a2);
    }
}

/// The cards at even positions, in order.
pub open spec fn even_positions(s: Seq<Card>) -> Seq<Card> {
    Seq::new((s.len() + 1) / 2, |i: int| s[2 * i])
}

/// The cards at odd positions, in order.
pub open spec fn odd_positions(s: Seq<Card>) -> Seq<Card> {
    Seq::new(s.len() / 2, |i: int| s[2 * i + 1])
}

/// A sequence holds exactly the cards of its even and odd positions.
pub proof fn lemma_even_odd_multiset(s: Seq<Card>)
    ensures
        s.to_multiset() == even_positions(s).to_multiset().add(odd_positions(s).to_multiset()),
    decreases s.len(),
{
    if s.len() == 0 {
        assert(even_positions(s) =~= Seq::<Card>::empty());
        assert(odd_positions(s) =~= Seq::<Card>::empty());
        assert(s.to_multiset() =~= even_positions(s).to_multiset().add(
            odd_positions(s).to_multiset()));
    } else {
        let d = s.drop_first();
        lemma_even_odd_multiset(d);
        assert(even_positions(s) =~= seq![s[0]] + odd_positions(d));
        assert(odd_positions(s) =~= even_positions(d));
        assert(s =~= seq![s[0]] + d);
        lemma_multiset_commutative(seq![s[0]], d);
        lemma_multiset_commutative(seq![s[0]], odd_positions(d));
        assert(s.to_multiset() =~= even_positions(s).to_multiset().add(
            odd_positions(s).to_multiset()));
    }
}

/// Splits a hand into its even- and odd-indexed cards, reorders each
/// part with its own inner strategy, and interleaves the parts back
/// into their original slots.
#[derive(Debug, Clone, Copy)]
pub struct Intersperse<S1: Strategy, S2: Strategy>(pub S1, pub S2);

impl<S1: Strategy, S2: Strategy> Strategy for Intersperse<S1, S2> {
    /// The even-indexed slots hold the first inner policy's reordering
    /// of the old even-indexed cards, the odd-indexed slots the second
    /// inner policy's reordering of the old odd-indexed cards.
    open spec fn reorders(&self, before: Seq<Card>, after: Seq<Card>) -> bool {
        &&& after.len() == before.len()
        &&& self.0.reorders(even_positions(before), even_positions(after))
        &&& self.1.reorders(odd_positions(before), odd_positions(after))
    }

    fn order_cards(&self, cards: &mut Vec<Card>)
        ensures
            even_positions(final(cards)@).to_multiset()
                == even_positions(old(cards)@).to_multiset(),
            odd_positions(final(cards)@).to_multiset()
                == odd_positions(old(cards)@).to_multiset(),
    {
        let n = cards.len();
        let mut set1: Vec<Card> = Vec::new();
        let mut set2: Vec<Card> = Vec::new();
        let mut i: usize = 0;
        while i < n
            invariant
                n == cards@.len(),
                i <= n,
                set1@ == even_positions(cards@.take(i as int)),
                set2@ == odd_positions(cards@.take(i as int)),
            decreases n - i,
        {
            let c = cards[i];
            if i % 2 == 0 {
                set1.push(c);
            } else {
                set2.push(c);
            }
            proof {
                assert(set1@ =~= even_positions(cards@.take(i + 1)));
                assert(set2@ =~= odd_positions(cards@.take(i + 1)));
            }
            i = i + 1;
        }
        proof {
            assert(cards@.take(n as int) =~= cards@);
        }
        let ghost evens = set1@;
        let ghost odds = set2@;
        self.0.order_cards(&mut set1);
        self.1.order_cards(&mut set2);
        proof {
            assert(set1@.len() == set1@.to_multiset().len());
            assert(evens.len() == evens.to_multiset().len());
            assert(set2@.len() == set2@.to_multiset().len());
            assert(odds.len() == odds.to_multiset().len());
        }
        let mut out: Vec<Card> = Vec::new();
        let mut i: usize = 0;
        while i < n
            invariant
                n == cards@.len(),
                i <= n,
                set1@.len() == (n + 1) / 2,
                set2@.len() == n / 2,
                out@.len() == i,
                forall|k: int| 0 <= k < i && k % 2 == 0 ==> out@[k] == set1@[k / 2],
                forall|k: int| 0 <= k < i && k % 2 == 1 ==> out@[k] == set2@[k / 2],
            decreases n - i,
        {
            if i % 2 == 0 {
                out.push(set1[i / 2]);
            } else {
                out.push(set2[i / 2]);
            }
            i = i + 1;
        }
        proof {
            assert(even_positions(out@) =~= set1@);
            assert(odd_positions(out@) =~= set2@);
            lemma_even_odd_multiset(out@);
            lemma_even_odd_multiset(cards@);
            assert(out@.to_multiset() =~= cards@.to_multiset());
        }
        *cards = out;
    }
}

/// Interleaving two deterministic policies is deterministic: the even
/// and odd slots of the outcome are each pinned, and together they pin
/// the whole sequence.
pub proof fn lemma_intersperse_deterministic<S1: Strategy, S2: Strategy>(s: Intersperse<S1, S2>)
    requires
        deterministic_strategy(s.0),
        deterministic_strategy(s.1),
    ensures
        deterministic_strategy(s),
{
    assert forall|b: Seq<Card>, a1: Seq<Card>, a2: Seq<Card>|
        #[trigger] s.reorders(b, a1) && #[trigger] s.reorders(b, a2) implies a1 == a2 by {
        assert(even_positions(a1) == even_positions(a2));
        assert(odd_positions(a1) == odd_positions(a2));
        assert forall|i: int| 0 <= i < a1.len() implies a1[i] == a2[i] by {
            if i % 2 == 0 {
                assert(a1[i] == even_positions(a1)[i / 2]);
                assert(a2[i] == even_positions(a2)[i / 2]);
            } else {
                assert(a1[i] == odd_positions(a1)[i / 2]);
                assert(a2[i] == odd_positions(a2)[i / 2]);
            }
        }
        assert(a1 =~= a2);
    }
}

} // verus!
