use vstd::prelude::*;

verus! {

/// Why an equity query was refused or could not be completed.
#[derive(Debug, Clone, Copy, PartialEq, Eq, Structural)]
pub enum EquityError {
    /// A range token could not be read.
    MalformedRange,
    /// A range holds no combination of positive weight.
    EmptyRange,
    /// The board text is not a sequence of two-character cards.
    MalformedBoard,
    /// The board does not hold 0, 3, 4 or 5 cards.
    InvalidBoardSize,
    /// The same card is given twice.
    DuplicateCard,
    /// A simulation was asked for zero trials.
    InvalidTrialCount,
    /// The deck holds fewer cards than a deal needs.
    InsufficientCards,
    /// No deal without overlapping cards was found within the retry budget.
    DeadlockedSampling,
}

} // verus!
