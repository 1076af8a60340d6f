//! A verified engine for the card game War between two players: a
//! provenance-keeping hand, a round resolver with the chained sacrifice
//! tie-break, pluggable ordering strategies, and a trial-tallying harness.
pub mod hand;
pub mod game;
pub mod strategy;
pub mod tally;
