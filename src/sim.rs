use vstd::prelude::*;

use crate::card::{board_size_ok, is_card, no_duplicates, all_distinct};
use crate::deck::{deck_without, draw_cards, draw_outcome, lemma_deck_upto_members, lemma_draw_len, lemma_draw_members, remaining_deck};
use crate::error::EquityError;
use crate::range::{lemma_some_selected, picked, HoleCombo, WeightedRange};
use crate::rng::{next_state, seed_state, Rng64};
use crate::tally::{recorded, showdown, showdown_of, EquityTally};

verus! {

/// Whether two hole-card pairs share a card, or either meets the board.
pub open spec fn clash(h: HoleCombo, v: HoleCombo, board: Seq<u8>) -> bool {
    ||| h.first == v.first
    ||| h.first == v.second
    ||| h.second == v.first
    ||| h.second == v.second
    ||| board.contains(h.first)
    ||| board.contains(h.second)
    ||| board.contains(v.first)
    ||| board.contains(v.second)
}

/// One attempt: a weighted draw from each range, hero's first.
/// Yields both indices and the generator's state after.
pub open spec fn attempt(h: Seq<HoleCombo>, ht: u64, v: Seq<HoleCombo>, vt: u64, state: u64) -> (int, int, u64) {
    let s1 = next_state(state);
    let s2 = next_state(s1);
    (picked(h, (s1 % ht) as int), picked(v, (s2 % vt) as int), s2)
}

/// Rejection sampling of both hole-card pairs: up to `budget` attempts,
/// the first without a clash is kept; `None` when every attempt clashes.
pub open spec fn sample_holes(
    h: Seq<HoleCombo>,
    ht: u64,
    v: Seq<HoleCombo>,
    vt: u64,
    board: Seq<u8>,
    budget: nat,
    state: u64,
) -> Option<(int, int, u64)>
    decreases budget,
{
    if budget == 0 {
        None
    } else {
        let a = attempt(h, ht, v, vt, state);
        if !clash(h[a.0], v[a.1], board) {
            Some(a)
        } else {
            sample_holes(h, ht, v, vt, board, (budget - 1) as nat, a.2)
        }
    }
}

/// The cards a deal takes out of the deck before completing the board.
pub open spec fn dealt_cards(h: HoleCombo, v: HoleCombo, board: Seq<u8>) -> Seq<u8> {
    board + seq![h.first, h.second, v.first, v.second]
}

/// One trial's deal: hero's pair, villain's pair, the five-card board and the
/// generator's state after, or why no deal could be made.
pub open spec fn deal_outcome(
    hero: WeightedRange,
    villain: WeightedRange,
    board: Seq<u8>,
    budget: nat,
    state: u64,
) -> Result<(HoleCombo, HoleCombo, Seq<u8>, u64), EquityError> {
    match sample_holes(hero.combos@, hero.total, villain.combos@, villain.total, board, budget, state) {
        None => Err(EquityError::DeadlockedSampling),
        Some((i, j, s)) => {
            let h = hero.combos@[i];
            let v = villain.combos@[j];
            let deck = deck_without(dealt_cards(h, v, board));
            let need = (5 - board.len()) as nat;
            if deck.len() < need {
                Err(EquityError::InsufficientCards)
            } else {
                let d = draw_outcome(deck, need, s);
                Ok((h, v, board + d.0, d.2))
            }
        }
    }
}

/// The hole cards of both contestants and the completed board of one trial.
#[derive(Debug)]
pub struct Deal {
    pub hero: HoleCombo,
    pub villain: HoleCombo,
    pub board: Vec<u8>,
}

impl Deal {
    /// Hero's seven cards: the two hole cards, then the board.
    pub fn hero_cards(&self) -> (r: Vec<u8>)
        ensures
            r@ == seq![self.hero.first, self.hero.second] + self.board@,
    {
        let mut r = vec![self.hero.first, self.hero.second];
        let mut b = self.board.clone();
        r.append(&mut b);
        r
    }

    /// Villain's seven cards: the two hole cards, then the board.
    pub fn villain_cards(&self) -> (r: Vec<u8>)
        ensures
            r@ == seq![self.villain.first, self.villain.second] + self.board@,
    {
        let mut r = vec![self.villain.first, self.villain.second];
        let mut b = self.board.clone();
        r.append(&mut b);
        r
    }
}

pub open spec fn view_deal(r: Result<Deal, EquityError>, state: u64) -> Result<(HoleCombo, HoleCombo, Seq<u8>, u64), EquityError> {
    match r {
        Ok(d) => Ok((d.hero, d.villain, d.board@, state)),
        Err(e) => Err(e),
    }
}

fn board_contains(board: &Vec<u8>, c: u8) -> (r: bool)
    ensures
        r == board@.contains(c),
{
    let mut i: usize = 0;
    while i < board.len()
        invariant
            i <= board@.len(),
            forall|k: int| 0 <= k < i ==> board@[k] != c,
        decreases board@.len() - i,
    {
        if board[i] == c {
            return true;
        }
        i = i + 1;
    }
    false
}

fn clashes(h: HoleCombo, v: HoleCombo, board: &Vec<u8>) -> (r: bool)
    ensures
        r == clash(h, v, board@),
{
    h.first == v.first || h.first == v.second || h.second == v.first || h.second == v.second
        || board_contains(board, h.first) || board_contains(board, h.second)
        || board_contains(board, v.first) || board_contains(board, v.second)
}

/// Deals one trial: samples a hole-card pair from each range in proportion
/// to weight, redrawing both while they clash (at most `budget` attempts),
/// then completes the board with cards drawn from the rest of the deck.
pub fn deal(
    hero: &WeightedRange,
    villain: &WeightedRange,
    board: &Vec<u8>,
    budget: u32,
    rng: &mut Rng64,
) -> (r: Result<Deal, EquityError>)
    requires
        hero.wf(),
        villain.wf(),
        board@.len() <= 5,
    ensures
        view_deal(r, final(rng).state) == deal_outcome(*hero, *villain, board@, budget as nat, old(rng).state),
{
    let ghost st0 = rng.state;
    let mut left: u32 = budget;
    let mut found: Option<(usize, usize)> = None;
    while left > 0 && found.is_none()
        invariant
            hero.wf(),
            villain.wf(),
            left <= budget,
            found is None ==> sample_holes(hero.combos@, hero.total, villain.combos@, villain.total, board@, budget as nat, st0)
                == sample_holes(hero.combos@, hero.total, villain.combos@, villain.total, board@, left as nat, rng.state),
            found matches Some((i, j)) ==> sample_holes(hero.combos@, hero.total, villain.combos@, villain.total, board@, budget as nat, st0)
                == Some((i as int, j as int, rng.state)) && i < hero.combos@.len() && j < villain.combos@.len(),
        decreases left,
    {
        let x = rng.below(hero.total);
        let i = hero.pick(x);
        let y = rng.below(villain.total);
        let j = villain.pick(y);
        if !clashes(hero.combos[i], villain.combos[j], board) {
            found = Some((i, j));
        }
        left = left - 1;
    }
    match found {
        None => {
            assert(sample_holes(hero.combos@, hero.total, villain.combos@, villain.total, board@, 0, rng.state) is None);
            Err(EquityError::DeadlockedSampling)
        }
        Some((i, j)) => {
            let h = hero.combos[i];
            let v = villain.combos[j];
            let mut blocked = board.clone();
            blocked.push(h.first);
            blocked.push(h.second);
            blocked.push(v.first);
            blocked.push(v.second);
            assert(blocked@ == dealt_cards(h, v, board@));
            let mut deck = remaining_deck(&blocked);
            let need: usize = 5 - board.len();
            if deck.len() < need {
                return Err(EquityError::InsufficientCards);
            }
            let drawn = draw_cards(&mut deck, need, rng);
            let mut full = board.clone();
            let mut d = drawn;
            full.append(&mut d);
            Ok(Deal { hero: h, villain: v, board: full })
        }
    }
}


/// A river deal draws nothing: the board stays as given and the generator
/// is only stepped by the hole-card sampling.
pub proof fn lemma_river_draws_nothing(
    hero: WeightedRange,
    villain: WeightedRange,
    board: Seq<u8>,
    budget: nat,
    state: u64,
)
    requires
        board.len() == 5,
    ensures
        deal_outcome(hero, villain, board, budget, state) matches Ok((h, v, b, s)) ==> (b == board
            && (sample_holes(hero.combos@, hero.total, villain.combos@, villain.total, board, budget, state)
            matches Some((i, j, s2)) && s2 == s)),
{
    if let Some((i, j, s)) = sample_holes(hero.combos@, hero.total, villain.combos@, villain.total, board, budget, state) {
        let deck = deck_without(dealt_cards(hero.combos@[i], villain.combos@[j], board));
        assert(draw_outcome(deck, 0, s) == (Seq::<u8>::empty(), deck, s));
        assert(board + Seq::<u8>::empty() == board);
    }
}

/// Ranges that admit no pair of hole-card holdings without a shared card
/// (or a card on the board) exhaust every retry budget.
pub proof fn lemma_mutually_exclusive_ranges(
    hero: WeightedRange,
    villain: WeightedRange,
    board: Seq<u8>,
    budget: nat,
    state: u64,
)
    requires
        hero.wf(),
        villain.wf(),
        forall|i: int, j: int| 0 <= i < hero.combos@.len() && 0 <= j < villain.combos@.len()
            ==> #[trigger] clash(hero.combos@[i], villain.combos@[j], board),
    ensures
        deal_outcome(hero, villain, board, budget, state) == Err::<(HoleCombo, HoleCombo, Seq<u8>, u64), EquityError>(EquityError::DeadlockedSampling),
    decreases budget,
{
    lemma_no_clean_sample(hero, villain, board, budget, state);
}

proof fn lemma_no_clean_sample(
    hero: WeightedRange,
    villain: WeightedRange,
    board: Seq<u8>,
    budget: nat,
    state: u64,
)
    requires
        hero.wf(),
        villain.wf(),
        forall|i: int, j: int| 0 <= i < hero.combos@.len() && 0 <= j < villain.combos@.len()
            ==> #[trigger] clash(hero.combos@[i], villain.combos@[j], board),
    ensures
        sample_holes(hero.combos@, hero.total, villain.combos@, villain.total, board, budget, state) is None,
    decreases budget,
{
    if budget > 0 {
        let s1 = next_state(state);
        let s2 = next_state(s1);
        lemma_some_selected(hero.combos@, (s1 % hero.total) as int, hero.combos@.len() as int);
        lemma_some_selected(villain.combos@, (s2 % villain.total) as int, villain.combos@.len() as int);
        let a = attempt(hero.combos@, hero.total, villain.combos@, villain.total, state);
        assert(clash(hero.combos@[a.0], villain.combos@[a.1], board));
        lemma_no_clean_sample(hero, villain, board, (budget - 1) as nat, a.2);
    }
}

/// A heads-up Monte Carlo query in progress: both ranges, the board, the
/// random source, the tally so far and the number of trials asked for.
/// Each step deals a trial; the caller scores both hands and records it.
#[derive(Debug)]
pub struct Simulation {
    pub hero: WeightedRange,
    pub villain: WeightedRange,
    pub board: Vec<u8>,
    pub rng: Rng64,
    pub tally: EquityTally,
    pub trials: u64,
    pub retry_budget: u32,
}

/// Whether `board` is a board: 0, 3, 4 or 5 distinct cards.
pub open spec fn valid_board(board: Seq<u8>) -> bool {
    &&& board_size_ok(board.len() as int)
    &&& forall|i: int| 0 <= i < board.len() ==> is_card(#[trigger] board[i])
    &&& no_duplicates(board)
}

/// Why a query with these inputs is refused before any trial, if it is.
pub open spec fn setup_error(board: Seq<u8>, trials: u64) -> Option<EquityError> {
    if trials == 0 {
        Some(EquityError::InvalidTrialCount)
    } else if !board_size_ok(board.len() as int) {
        Some(EquityError::InvalidBoardSize)
    } else if !(forall|i: int| 0 <= i < board.len() ==> is_card(#[trigger] board[i])) {
        Some(EquityError::MalformedBoard)
    } else if !no_duplicates(board) {
        Some(EquityError::DuplicateCard)
    } else {
        None
    }
}

impl Simulation {
    pub open spec fn wf(&self) -> bool {
        &&& self.hero.wf()
        &&& self.villain.wf()
        &&& valid_board(self.board@)
        &&& self.tally.trials() <= self.trials
    }

    /// Starts a query of `trials` trials, with the random source seeded by
    /// `seed` and at most `retry_budget` sampling attempts per trial.
    pub fn new(
        hero: WeightedRange,
        villain: WeightedRange,
        board: Vec<u8>,
        trials: u64,
        seed: u64,
        retry_budget: u32,
    ) -> (r: Result<Simulation, EquityError>)
        requires
            hero.wf(),
            villain.wf(),
        ensures
            setup_error(board@, trials) matches Some(e) ==> r == Err::<Simulation, EquityError>(e),
            setup_error(board@, trials) is None ==> r is Ok,
            r matches Ok(s) ==> s.wf() && s.hero == hero && s.villain == villain && s.board@ == board@
                && s.rng.state == seed_state(seed) && s.trials == trials && s.retry_budget == retry_budget
                && s.tally == (EquityTally { hero_wins: 0, villain_wins: 0, ties: 0 }),
    {
        if trials == 0 {
            return Err(EquityError::InvalidTrialCount);
        }
        let n = board.len();
        if !(n == 0 || n == 3 || n == 4 || n == 5) {
            return Err(EquityError::InvalidBoardSize);
        }
        let mut i: usize = 0;
        while i < n
            invariant
                n == board@.len(),
                i <= n,
                trials != 0,
                board_size_ok(n as int),
                forall|k: int| 0 <= k < i ==> is_card(#[trigger] board@[k]),
            decreases n - i,
        {
            if board[i] >= 52 {
                assert(!is_card(board@[i as int]));
                return Err(EquityError::MalformedBoard);
            }
            i = i + 1;
        }
        if !all_distinct(&board) {
            return Err(EquityError::DuplicateCard);
        }
        let rng = Rng64::new(seed);
        let tally = EquityTally::new();
        Ok(Simulation { hero, villain, board, rng, tally, trials, retry_budget })
    }

    pub fn is_done(&self) -> (r: bool)
        ensures
            r == (self.tally.trials() >= self.trials),
    {
        self.tally.hero_wins as u128 + self.tally.villain_wins as u128 + self.tally.ties as u128 >= self.trials as u128
    }

    /// Deals the next trial, or `None` once every trial has been recorded.
    pub fn next_deal(&mut self) -> (r: Result<Option<Deal>, EquityError>)
        requires
            old(self).wf(),
        ensures
            final(self).wf(),
            final(self).hero == old(self).hero,
            final(self).villain == old(self).villain,
            final(self).board == old(self).board,
            final(self).tally == old(self).tally,
            final(self).trials == old(self).trials,
            final(self).retry_budget == old(self).retry_budget,
            old(self).tally.trials() >= old(self).trials ==> (r matches Ok(None) && final(self).rng == old(self).rng),
            old(self).tally.trials() < old(self).trials ==> match r {
                Ok(Some(d)) => deal_outcome(old(self).hero, old(self).villain, old(self).board@,
                    old(self).retry_budget as nat, old(self).rng.state)
                    == Ok::<(HoleCombo, HoleCombo, Seq<u8>, u64), EquityError>((d.hero, d.villain, d.board@, final(self).rng.state)),
                Ok(None) => false,
                Err(e) => deal_outcome(old(self).hero, old(self).villain, old(self).board@,
                    old(self).retry_budget as nat, old(self).rng.state)
                    == Err::<(HoleCombo, HoleCombo, Seq<u8>, u64), EquityError>(e),
            },
    {
        if self.is_done() {
            return Ok(None);
        }
        let r = deal(&self.hero, &self.villain, &self.board, self.retry_budget, &mut self.rng);
        match r {
            Ok(d) => Ok(Some(d)),
            Err(e) => Err(e),
        }
    }

    /// Records the trial just dealt, given the scores of both hands.
    pub fn record(&mut self, hero_score: u16, villain_score: u16)
        requires
            old(self).wf(),
            old(self).tally.trials() < old(self).trials,
        ensures
            final(self).wf(),
            final(self).tally == recorded(old(self).tally, showdown_of(hero_score, villain_score)),
            final(self).tally.trials() == old(self).tally.trials() + 1,
            final(self).hero == old(self).hero,
            final(self).villain == old(self).villain,
            final(self).board == old(self).board,
            final(self).rng == old(self).rng,
            final(self).trials == old(self).trials,
            final(self).retry_budget == old(self).retry_budget,
    {
        let s = showdown(hero_score, villain_score);
        self.tally.record(s);
    }

    /// The tally so far; once done it counts exactly the trials asked for.
    pub fn result(&self) -> (r: EquityTally)
        requires
            self.wf(),
        ensures
            r == self.tally,
            self.tally.trials() >= self.trials ==> r.hero_wins + r.villain_wins + r.ties == self.trials,
    {
        self.tally
    }
}


proof fn lemma_sample_holes_ok(
    hero: WeightedRange,
    villain: WeightedRange,
    board: Seq<u8>,
    budget: nat,
    state: u64,
)
    requires
        hero.wf(),
        villain.wf(),
    ensures
        sample_holes(hero.combos@, hero.total, villain.combos@, villain.total, board, budget, state)
            matches Some((i, j, s)) ==> (0 <= i < hero.combos@.len() && 0 <= j < villain.combos@.len()
            && !clash(hero.combos@[i], villain.combos@[j], board)),
    decreases budget,
{
    if budget > 0 {
        let s1 = next_state(state);
        let s2 = next_state(s1);
        lemma_some_selected(hero.combos@, (s1 % hero.total) as int, hero.combos@.len() as int);
        lemma_some_selected(villain.combos@, (s2 % villain.total) as int, villain.combos@.len() as int);
        let a = attempt(hero.combos@, hero.total, villain.combos@, villain.total, state);
        lemma_sample_holes_ok(hero, villain, board, (budget - 1) as nat, a.2);
    }
}

/// No card is dealt twice: in every deal the four hole cards and the
/// five cards of the completed board are all distinct.
pub proof fn lemma_deal_cards_distinct(
    hero: WeightedRange,
    villain: WeightedRange,
    board: Seq<u8>,
    budget: nat,
    state: u64,
)
    requires
        hero.wf(),
        villain.wf(),
        valid_board(board),
    ensures
        deal_outcome(hero, villain, board, budget, state) matches Ok((h, v, b, s))
            ==> (no_duplicates(seq![h.first, h.second, v.first, v.second] + b) && b.len() == 5),
{
    lemma_sample_holes_ok(hero, villain, board, budget, state);
    if let Some((i, j, s)) = sample_holes(hero.combos@, hero.total, villain.combos@, villain.total, board, budget, state) {
        let h = hero.combos@[i];
        let v = villain.combos@[j];
        let blocked = dealt_cards(h, v, board);
        let deck = deck_without(blocked);
        let need = (5 - board.len()) as nat;
        if deck.len() >= need {
            lemma_deck_upto_members(52, blocked);
            lemma_draw_members(deck, need, s);
            lemma_draw_len(deck, need, s);
            let d = draw_outcome(deck, need, s).0;
            let holes = seq![h.first, h.second, v.first, v.second];
            let x = holes + (board + d);
            let nb = board.len() as int;
            assert forall|p: int| 0 <= p < 4 implies #[trigger] blocked[nb + p] == holes[p] by {}
            assert forall|p: int| 0 <= p < nb implies #[trigger] blocked[p] == board[p] by {}
            assert forall|p: int| 0 <= p < d.len() implies !blocked.contains(#[trigger] d[p]) by {
                let q = choose|q: int| 0 <= q < deck.len() && deck[q] == d[p];
                assert(!blocked.contains(deck[q]));
            }
            assert forall|a: int, c: int| 0 <= a < c < x.len() implies x[a] != x[c] by {
                if c < 4 {
                    assert(x[a] == holes[a] && x[c] == holes[c]);
                } else if c < 4 + nb {
                    assert(x[c] == board[c - 4]);
                    if a < 4 {
                        assert(x[a] == holes[a]);
                        assert(board.contains(board[c - 4]));
                    } else {
                        assert(x[a] == board[a - 4]);
                    }
                } else {
                    assert(x[c] == d[c - 4 - nb]);
                    assert(!blocked.contains(d[c - 4 - nb]));
                    if a < 4 {
                        assert(x[a] == holes[a]);
                        assert(blocked[nb + a] == holes[a]);
                    } else if a < 4 + nb {
                        assert(x[a] == board[a - 4]);
                        assert(blocked[a - 4] == board[a - 4]);
                    } else {
                        assert(x[a] == d[a - 4 - nb]);
                    }
                }
            }
        }
    }
}

} // verus!
