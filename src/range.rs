use vstd::prelude::*;

use crate::card::is_card;
use crate::error::EquityError;

verus! {

/// Most two-card combinations a range can hold: 52 choose 2.
pub const MAX_COMBOS: usize = 1326;

/// Largest weight of one combination (weights are percentages).
pub const FULL_WEIGHT: u64 = 100;

/// Two distinct hole cards and their relative weight, 0 ..= 100.
#[derive(Debug, Clone, Copy, PartialEq, Eq, Structural)]
pub struct HoleCombo {
    pub first: u8,
    pub second: u8,
    pub weight: u64,
}

pub open spec fn valid_combo(c: HoleCombo) -> bool {
    is_card(c.first) && is_card(c.second) && c.first != c.second && c.weight <= 100
}

/// The total weight of the first `i` combinations.
pub open spec fn prefix_weight(s: Seq<HoleCombo>, i: int) -> nat
    decreases i,
{
    if i <= 0 || s.len() == 0 {
        0
    } else if i > s.len() {
        prefix_weight(s, s.len() as int)
    } else {
        (prefix_weight(s, i - 1) + s[i - 1].weight) as nat
    }
}

pub open spec fn total_weight(s: Seq<HoleCombo>) -> nat {
    prefix_weight(s, s.len() as int)
}

/// `i` is the first combination whose cumulative weight exceeds `x`:
/// the one that a uniform draw `x` below the total weight selects.
pub open spec fn selects(s: Seq<HoleCombo>, x: int, i: int) -> bool {
    &&& 0 <= i < s.len()
    &&& prefix_weight(s, i) <= x < prefix_weight(s, i + 1)
}

/// The combination that the draw `x` selects.
pub open spec fn picked(s: Seq<HoleCombo>, x: int) -> int {
    choose|i: int| selects(s, x, i)
}

pub proof fn lemma_prefix_monotone(s: Seq<HoleCombo>, i: int, j: int)
    requires
        0 <= i <= j <= s.len(),
    ensures
        prefix_weight(s, i) <= prefix_weight(s, j),
    decreases j - i,
{
    if i < j {
        lemma_prefix_monotone(s, i, j - 1);
    }
}

pub proof fn lemma_prefix_bound(s: Seq<HoleCombo>, i: int)
    requires
        0 <= i <= s.len(),
        forall|k: int| 0 <= k < s.len() ==> valid_combo(#[trigger] s[k]),
    ensures
        prefix_weight(s, i) <= 100 * i,
    decreases i,
{
    if i > 0 {
        lemma_prefix_bound(s, i - 1);
    }
}

/// Only one combination is selected by a given draw.
pub proof fn lemma_selects_unique(s: Seq<HoleCombo>, x: int, i: int, j: int)
    requires
        selects(s, x, i),
        selects(s, x, j),
    ensures
        i == j,
{
    if i < j {
        lemma_prefix_monotone(s, i + 1, j);
    } else if j < i {
        lemma_prefix_monotone(s, j + 1, i);
    }
}

/// Every draw below the total weight selects some combination.
pub proof fn lemma_some_selected(s: Seq<HoleCombo>, x: int, k: int)
    requires
        0 <= x < prefix_weight(s, k),
        0 <= k <= s.len(),
    ensures
        selects(s, x, picked(s, x)),
        0 <= picked(s, x) < k,
    decreases k,
{
    if k > 0 {
        if x < prefix_weight(s, k - 1) {
            lemma_some_selected(s, x, k - 1);
        } else {
            assert(selects(s, x, k - 1));
            lemma_selects_unique(s, x, k - 1, picked(s, x));
        }
    }
}

/// A range of weighted hole-card combinations, with the running totals
/// of their weights for selection in proportion to weight.
#[derive(Debug, Clone)]
pub struct WeightedRange {
    pub combos: Vec<HoleCombo>,
    pub cumulative: Vec<u64>,
    pub total: u64,
}

impl WeightedRange {
    pub open spec fn wf(&self) -> bool {
        &&& self.combos@.len() == self.cumulative@.len()
        &&& self.combos@.len() <= MAX_COMBOS
        &&& forall|k: int| 0 <= k < self.combos@.len() ==> valid_combo(#[trigger] self.combos@[k])
        &&& forall|k: int| 0 <= k < self.cumulative@.len()
            ==> #[trigger] self.cumulative@[k] == prefix_weight(self.combos@, k + 1)
        &&& self.total == total_weight(self.combos@)
        &&& self.total > 0
    }

    /// Builds a range from its combinations. Refused when one is not two
    /// distinct cards of weight at most 100, or there are more than 1326
    /// (`MalformedRange`), and when the weights sum to zero (`EmptyRange`).
    pub fn from_combos(combos: Vec<HoleCombo>) -> (r: Result<WeightedRange, EquityError>)
        ensures
            combos@.len() > MAX_COMBOS || (exists|k: int| 0 <= k < combos@.len() && !valid_combo(#[trigger] combos@[k]))
                ==> r == Err::<WeightedRange, EquityError>(EquityError::MalformedRange),
            combos@.len() <= MAX_COMBOS && (forall|k: int| 0 <= k < combos@.len() ==> valid_combo(#[trigger] combos@[k]))
                ==> (r is Err <==> total_weight(combos@) == 0),
            r is Err ==> r == Err::<WeightedRange, EquityError>(EquityError::MalformedRange)
                || r == Err::<WeightedRange, EquityError>(EquityError::EmptyRange),
            r matches Ok(wr) ==> wr.wf() && wr.combos@ == combos@,
            total_weight(combos@) == 0 && combos@.len() <= MAX_COMBOS && (forall|k: int| 0 <= k < combos@.len() ==> valid_combo(#[trigger] combos@[k]))
                ==> r == Err::<WeightedRange, EquityError>(EquityError::EmptyRange),
    {
        let n = combos.len();
        if n > MAX_COMBOS {
            return Err(EquityError::MalformedRange);
        }
        let mut cumulative: Vec<u64> = Vec::new();
        let mut acc: u64 = 0;
        let mut i: usize = 0;
        while i < n
            invariant
                n == combos@.len(),
                n <= MAX_COMBOS,
                i <= n,
                cumulative@.len() == i,
                forall|k: int| 0 <= k < i ==> valid_combo(#[trigger] combos@[k]),
                forall|k: int| 0 <= k < i ==> #[trigger] cumulative@[k] == prefix_weight(combos@, k + 1),
                acc == prefix_weight(combos@, i as int),
                acc <= 100 * i,
            decreases n - i,
        {
            let c = combos[i];
            if !(c.first < 52 && c.second < 52 && c.first != c.second && c.weight <= FULL_WEIGHT) {
                return Err(EquityError::MalformedRange);
            }
            acc = acc + c.weight;
            cumulative.push(acc);
            i = i + 1;
        }
        if acc == 0 {
            return Err(EquityError::EmptyRange);
        }
        Ok(WeightedRange { combos, cumulative, total: acc })
    }

    /// The combination that the draw `x` selects.
    pub fn pick(&self, x: u64) -> (r: usize)
        requires
            self.wf(),
            x < self.total,
        ensures
            selects(self.combos@, x as int, r as int),
            r as int == picked(self.combos@, x as int),
    {
        let n = self.cumulative.len();
        let mut i: usize = 0;
        while i < n
            invariant
                self.wf(),
                x < self.total,
                n == self.cumulative@.len(),
                i <= n,
                prefix_weight(self.combos@, i as int) <= x,
            decreases n - i,
        {
            if x < self.cumulative[i] {
                proof {
                    assert(selects(self.combos@, x as int, i as int));
                    let j = picked(self.combos@, x as int);
                    lemma_selects_unique(self.combos@, x as int, i as int, j);
                }
                return i;
            }
            i = i + 1;
        }
        assert(false);
        0
    }
}

} // verus!
