use vstd::prelude::*;

use crate::card::{board_outcome, parse_board};
use crate::error::EquityError;
use crate::notation::{parse_range, range_combos, range_outcome_ok};
use crate::range::{total_weight, MAX_COMBOS};
use crate::rng::seed_state;
use crate::sim::Simulation;
use crate::tally::EquityTally;

verus! {

/// Trials run when the caller names no count.
pub const DEFAULT_TRIALS: u64 = 100_000;

/// Sampling attempts allowed per trial before the query is abandoned.
pub const RETRY_BUDGET: u32 = 1000;

/// Whether range text reads as a range of positive weight.
pub open spec fn range_accepted(s: Seq<char>) -> bool {
    &&& s.len() > 0
    &&& range_combos(s) matches Some(cs)
    &&& cs.len() <= MAX_COMBOS
    &&& total_weight(cs) > 0
}

/// Sets up a heads-up equity query: reads both ranges and the board, and
/// seeds the random source. Errors are reported in that order: hero's range,
/// villain's range, the board, then a zero trial count.
pub fn start_query(
    hero_text: &str,
    villain_text: &str,
    board_text: &str,
    trials: u64,
    seed: u64,
) -> (r: Result<Simulation, EquityError>)
    ensures
        range_accepted(hero_text@) && range_accepted(villain_text@) && board_outcome(board_text@) is Ok && trials > 0
            <==> r is Ok,
        r matches Ok(sim) ==> {
            &&& sim.wf()
            &&& range_outcome_ok(hero_text@, Ok(sim.hero))
            &&& range_outcome_ok(villain_text@, Ok(sim.villain))
            &&& board_outcome(board_text@) == Ok::<Seq<u8>, EquityError>(sim.board@)
            &&& sim.trials == trials
            &&& sim.rng.state == seed_state(seed)
            &&& sim.retry_budget == RETRY_BUDGET
            &&& sim.tally == (EquityTally { hero_wins: 0, villain_wins: 0, ties: 0 })
        },
        r matches Err(e) ==> {
            ||| range_outcome_ok(hero_text@, Err(e))
            ||| range_accepted(hero_text@) && range_outcome_ok(villain_text@, Err(e))
            ||| range_accepted(hero_text@) && range_accepted(villain_text@) && board_outcome(board_text@) == Err::<Seq<u8>, EquityError>(e)
            ||| range_accepted(hero_text@) && range_accepted(villain_text@) && board_outcome(board_text@) is Ok
                && trials == 0 && e == EquityError::InvalidTrialCount
        },
{
    let hero = match parse_range(hero_text) {
        Ok(h) => h,
        Err(e) => return Err(e),
    };
    let villain = match parse_range(villain_text) {
        Ok(v) => v,
        Err(e) => return Err(e),
    };
    let board = match parse_board(board_text) {
        Ok(b) => b,
        Err(e) => return Err(e),
    };
    Simulation::new(hero, villain, board, trials, seed, RETRY_BUDGET)
}

} // verus!
