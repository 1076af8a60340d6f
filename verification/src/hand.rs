//! The per-player card store: an append-only history of every card the
//! hand has ever held, together with a count of how many trailing entries
//! are currently held. Playing a card shrinks the held window at its old
//! end; winning cards extends the history, and the window with it.
use vstd::prelude::*;
use core::ops::Range;

verus! {

/// A playing card: a rank with no suit. Ranks run 1 through 13; equality
/// and ordering are by rank alone.
pub type Card = u8;

/// A queue that never forgets: the cards ever held form an append-only
/// history, and the cards currently held are a trailing window of it.
/// Dequeuing from the front of the window is logical only; the history
/// keeps every card for audit and replay.
pub struct HistoryQueue {
    history: Vec<Card>,
    len: usize,
}

impl HistoryQueue {
    /// The full historical sequence of cards this hand has ever held.
    pub closed spec fn hist(&self) -> Seq<Card> {
        self.history@
    }

    /// How many trailing entries of the history are currently held.
    pub closed spec fn held_count(&self) -> nat {
        self.len as nat
    }

    pub open spec fn wf(&self) -> bool {
        self.held_count() <= self.hist().len()
    }

    /// The currently held cards, oldest (next to play) first.
    pub open spec fn held(&self) -> Seq<Card> {
        self.hist().skip(self.hist().len() - self.held_count())
    }

    /// Index of the oldest currently held card within the history.
    pub open spec fn spec_start(&self) -> int {
        self.hist().len() - self.held_count()
    }

    /// The full history of cards ever held, oldest first.
    pub fn history(&self) -> (r: &[Card])
        ensures
            r@ == self.hist(),
    {
        self.history.as_slice()
    }

    /// Append a newly received card: it joins the history and the held window.
    pub fn push(&mut self, value: Card)
        requires
            old(self).wf(),
            old(self).hist().len() < usize::MAX,
        ensures
            final(self).wf(),
            final(self).hist() == old(self).hist().push(value),
            final(self).held_count() == old(self).held_count() + 1,
            final(self).held() == old(self).held().push(value),
    {
        self.history.push(value);
        self.len = self.len + 1;
        proof {
            assert(final(self).held() =~= old(self).held().push(value));
        }
    }

    /// Play the oldest currently held card. The card stays in the history;
    /// only the held window shrinks. An empty window yields `None`, which is
    /// an ordinary signal, not an error.
    pub fn pop(&mut self) -> (r: Option<Card>)
        requires
            old(self).wf(),
        ensures
            final(self).wf(),
            final(self).hist() == old(self).hist(),
            old(self).held_count() == 0 ==> r is None && *final(self) == *old(self),
            old(self).held_count() > 0 ==> r == Some(old(self).held()[0])
                && final(self).held_count() == old(self).held_count() - 1
                && final(self).held() == old(self).held().drop_first(),
    {
        if self.len == 0 {
            return None;
        }
        self.len = self.len - 1;
        let idx = self.history.len() - self.len - 1;
        proof {
            assert(final(self).held() =~= old(self).held().drop_first());
        }
        Some(self.history[idx])
    }

    /// Append every card of `cards` in order, as `push` would one by one.
    pub fn push_all(&mut self, cards: &Vec<Card>)
        requires
            old(self).wf(),
            old(self).hist().len() + cards@.len() <= usize::MAX,
        ensures
            final(self).wf(),
            final(self).hist() == old(self).hist() + cards@,
            final(self).held_count() == old(self).held_count() + cards@.len(),
            final(self).held() == old(self).held() + cards@,
    {
        let n = cards.len();
        let mut i: usize = 0;
        while i < n
            invariant
                self.wf(),
                n == cards@.len(),
                i <= n,
                old(self).hist().len() + n <= usize::MAX,
                self.hist() == old(self).hist() + cards@.take(i as int),
                self.held_count() == old(self).held_count() + i,
                self.held() == old(self).held() + cards@.take(i as int),
            decreases n - i,
        {
            let c = cards[i];
            self.push(c);
            proof {
                assert(self.hist() =~= old(self).hist() + cards@.take(i + 1));
                assert(self.held() =~= old(self).held() + cards@.take(i + 1));
            }
            i = i + 1;
        }
        proof {
            assert(cards@.take(n as int) =~= cards@);
        }
    }

    /// How many cards are currently held.
    pub fn len(&self) -> (r: usize)
        ensures
            r == self.held_count(),
    {
        self.len
    }

    /// The half-open range of history positions currently held.
    pub fn current_range(&self) -> (r: Range<usize>)
        requires
            self.wf(),
        ensures
            r.start == self.spec_start(),
            r.end == self.hist().len(),
    {
        self.start()..self.history.len()
    }

    /// Index of the oldest currently held card within the history.
    pub fn start(&self) -> (r: usize)
        requires
            self.wf(),
        ensures
            r == self.spec_start(),
    {
        self.history.len() - self.len
    }

    /// The `idx`-th currently held card, counting from the oldest. An
    /// out-of-range index is a caller error, excluded by contract.
    pub fn index(&self, idx: usize) -> (r: &Card)
        requires
            self.wf(),
            idx < self.held_count(),
        ensures
            *r == self.held()[idx as int],
    {
        let i = self.history.len() - self.len + idx;
        &self.history[i]
    }
}

impl From<Vec<Card>> for HistoryQueue {
    /// A hand that starts out holding exactly the given cards, oldest first.
    fn from(vec: Vec<Card>) -> (r: HistoryQueue)
        ensures
            r.hist() == vec@,
            r.held_count() == vec@.len(),
    {
        let len = vec.len();
        HistoryQueue { history: vec, len }
    }
}

impl vstd::std_specs::convert::FromSpecImpl<Vec<Card>> for HistoryQueue {
    open spec fn obeys_from_spec() -> bool {
        true
    }

    closed spec fn from_spec(vec: Vec<Card>) -> HistoryQueue {
        HistoryQueue { history: vec, len: vec.len() as usize }
    }
}

} // verus!
