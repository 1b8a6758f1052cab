//! An iterated cooperate-or-steal game played by a population of strategies.
//!
//! Two players meet for a match of [`common::MATCH_ROUNDS`] rounds. In every
//! round each of them cooperates or steals, having seen only its own,
//! possibly noisy, record of the rounds before. A season plays every pairing
//! of the population, a player against itself included, and ranks the players
//! by their average payoff per round. Between seasons the population grows by
//! the kinds of the players that did well.
//!
//! Every function here is verified. What is taken on trust is named in
//! [`outside`]: the random draws and the enumeration of pairings.

pub mod outside;
pub mod pairing;
pub mod common;
pub mod course;
pub mod evolution;
pub mod fitness;
pub mod players;
pub mod random;
pub mod season;
pub mod sweep;
