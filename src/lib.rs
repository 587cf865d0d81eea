//! Monte Carlo equity estimation for two Texas Hold'em ranges.
//!
//! Cards and boards (`card`), the deck and drawing from it (`deck`), the
//! seeded random source (`rng`), weighted ranges (`range`) and their text
//! notation (`notation`), dealing trials (`sim`), counting showdowns
//! (`tally`) and setting up a query from text (`query`). Scoring a hand is
//! left to the caller, who records each trial's two scores.
pub mod card;
pub mod deck;
pub mod error;
pub mod notation;
pub mod query;
pub mod range;
pub mod rng;
pub mod sim;
pub mod tally;
