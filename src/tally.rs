use vstd::prelude::*;

verus! {

/// Who takes one trial's pot.
#[derive(Debug, Clone, Copy, PartialEq, Eq, Structural)]
pub enum Showdown {
    HeroWins,
    VillainWins,
    Tie,
}

/// Higher hand scores are stronger; equal scores split the pot.
pub open spec fn showdown_of(hero_score: u16, villain_score: u16) -> Showdown {
    if hero_score > villain_score {
        Showdown::HeroWins
    } else if hero_score < villain_score {
        Showdown::VillainWins
    } else {
        Showdown::Tie
    }
}

/// The same showdown seen with the two seats exchanged.
pub open spec fn mirror(s: Showdown) -> Showdown {
    match s {
        Showdown::HeroWins => Showdown::VillainWins,
        Showdown::VillainWins => Showdown::HeroWins,
        Showdown::Tie => Showdown::Tie,
    }
}

pub fn showdown(hero_score: u16, villain_score: u16) -> (r: Showdown)
    ensures
        r == showdown_of(hero_score, villain_score),
{
    if hero_score > villain_score {
        Showdown::HeroWins
    } else if hero_score < villain_score {
        Showdown::VillainWins
    } else {
        Showdown::Tie
    }
}

/// Exchanging the two hands exchanges winner and loser and keeps a tie.
pub proof fn lemma_showdown_symmetric(a: u16, b: u16)
    ensures
        showdown_of(b, a) == mirror(showdown_of(a, b)),
{
}

/// Counts of trials won by each contestant and of trials tied.
#[derive(Debug, Clone, Copy, PartialEq, Eq, Structural)]
pub struct EquityTally {
    pub hero_wins: u64,
    pub villain_wins: u64,
    pub ties: u64,
}

/// The tally after one more trial with the given showdown.
pub open spec fn recorded(t: EquityTally, s: Showdown) -> EquityTally {
    match s {
        Showdown::HeroWins => EquityTally { hero_wins: (t.hero_wins + 1) as u64, ..t },
        Showdown::VillainWins => EquityTally { villain_wins: (t.villain_wins + 1) as u64, ..t },
        Showdown::Tie => EquityTally { ties: (t.ties + 1) as u64, ..t },
    }
}

pub open spec fn swapped_of(t: EquityTally) -> EquityTally {
    EquityTally { hero_wins: t.villain_wins, villain_wins: t.hero_wins, ties: t.ties }
}

impl EquityTally {
    /// Trials counted: every trial lands in exactly one of the three counts.
    pub open spec fn trials(&self) -> int {
        self.hero_wins + self.villain_wins + self.ties
    }

    pub fn new() -> (r: EquityTally)
        ensures
            r == (EquityTally { hero_wins: 0, villain_wins: 0, ties: 0 }),
    {
        EquityTally { hero_wins: 0, villain_wins: 0, ties: 0 }
    }

    /// Counts one trial.
    pub fn record(&mut self, s: Showdown)
        requires
            old(self).trials() < u64::MAX,
        ensures
            *final(self) == recorded(*old(self), s),
            final(self).trials() == old(self).trials() + 1,
    {
        match s {
            Showdown::HeroWins => self.hero_wins = self.hero_wins + 1,
            Showdown::VillainWins => self.villain_wins = self.villain_wins + 1,
            Showdown::Tie => self.ties = self.ties + 1,
        }
    }

    /// The tally seen with the two seats exchanged.
    pub fn swapped(&self) -> (r: EquityTally)
        ensures
            r == swapped_of(*self),
    {
        EquityTally { hero_wins: self.villain_wins, villain_wins: self.hero_wins, ties: self.ties }
    }
}

/// Seat symmetry of tallying: counting a showdown with the seats exchanged
/// gives the exchanged tally of counting it with the seats as they were.
pub proof fn lemma_record_symmetric(t: EquityTally, a: u16, b: u16)
    ensures
        recorded(swapped_of(t), showdown_of(b, a)) == swapped_of(recorded(t, showdown_of(a, b))),
{
}

/// Win, loss and tie counts partition the trials, so the three shares
/// (each count over the trials) sum to the whole.
pub proof fn lemma_shares_partition(t: EquityTally, s: Showdown)
    requires
        t.trials() < u64::MAX,
    ensures
        recorded(t, s).trials() == t.trials() + 1,
        recorded(t, s).hero_wins + recorded(t, s).villain_wins + recorded(t, s).ties == recorded(t, s).trials(),
{
}

} // verus!
