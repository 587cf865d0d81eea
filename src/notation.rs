use vstd::prelude::*;

use crate::card::{is_card, rank_value, suit_value, rank_from_char, suit_from_char};
use crate::error::EquityError;
use crate::range::{HoleCombo, WeightedRange, FULL_WEIGHT};

verus! {

/// Which suit combinations a two-rank shorthand stands for.
#[derive(Debug, Clone, Copy, PartialEq, Eq, Structural)]
pub enum Shape {
    /// "AKs": both cards of one suit.
    Suited,
    /// "AKo": cards of different suits.
    Offsuit,
    /// "AK": both of the above.
    Any,
}

/// Whether suits `s1` (of the higher card) and `s2` belong to the class.
/// For a pocket pair only the unordered pairs of distinct suits count.
pub open spec fn suits_in_class(pair: bool, shape: Shape, s1: int, s2: int) -> bool {
    if pair {
        s1 < s2
    } else {
        match shape {
            Shape::Suited => s1 == s2,
            Shape::Offsuit => s1 != s2,
            Shape::Any => true,
        }
    }
}

/// The class's combos for the suit pairs `t .. 16` (`t = 4 * s1 + s2`),
/// appended to `acc` in order.
pub open spec fn class_from(hi: u8, lo: u8, shape: Shape, w: u64, t: int, acc: Seq<HoleCombo>) -> Seq<HoleCombo>
    decreases 16 - t,
{
    if t >= 16 || t < 0 {
        acc
    } else {
        let s1 = t / 4;
        let s2 = t % 4;
        let next = if suits_in_class(hi == lo, shape, s1, s2) {
            acc.push(HoleCombo { first: (4 * hi + s1) as u8, second: (4 * lo + s2) as u8, weight: w })
        } else {
            acc
        };
        class_from(hi, lo, shape, w, t + 1, next)
    }
}

/// The concrete combos that a shorthand class stands for.
pub open spec fn class_combos(hi: u8, lo: u8, shape: Shape, w: u64) -> Seq<HoleCombo> {
    class_from(hi, lo, shape, w, 0, Seq::empty())
}

/// How many suit pairs from `t` on belong to the class.
pub open spec fn class_count_from(pair: bool, shape: Shape, t: int) -> nat
    decreases 16 - t,
{
    if t >= 16 || t < 0 {
        0
    } else {
        (if suits_in_class(pair, shape, t / 4, t % 4) { 1nat } else { 0nat })
            + class_count_from(pair, shape, t + 1)
    }
}

proof fn lemma_class_len(hi: u8, lo: u8, shape: Shape, w: u64, t: int, acc: Seq<HoleCombo>)
    requires
        0 <= t <= 16,
    ensures
        class_from(hi, lo, shape, w, t, acc).len() == acc.len() + class_count_from(hi == lo, shape, t),
    decreases 16 - t,
{
    if t < 16 {
        let next = if suits_in_class(hi == lo, shape, t / 4, t % 4) {
            acc.push(HoleCombo { first: (4 * hi + t / 4) as u8, second: (4 * lo + t % 4) as u8, weight: w })
        } else {
            acc
        };
        lemma_class_len(hi, lo, shape, w, t + 1, next);
    }
}

/// Shorthand expansion: two distinct ranks offsuit stand for 12 combos,
/// suited for 4, both for 16, and a pocket pair for 6.
pub proof fn lemma_class_sizes(hi: u8, lo: u8, w: u64)
    ensures
        hi != lo ==> class_combos(hi, lo, Shape::Offsuit, w).len() == 12,
        hi != lo ==> class_combos(hi, lo, Shape::Suited, w).len() == 4,
        hi != lo ==> class_combos(hi, lo, Shape::Any, w).len() == 16,
        class_combos(hi, hi, Shape::Any, w).len() == 6,
        class_combos(hi, hi, Shape::Offsuit, w).len() == 6,
{
    lemma_class_len(hi, lo, Shape::Offsuit, w, 0, Seq::empty());
    lemma_class_len(hi, lo, Shape::Suited, w, 0, Seq::empty());
    lemma_class_len(hi, lo, Shape::Any, w, 0, Seq::empty());
    lemma_class_len(hi, hi, Shape::Any, w, 0, Seq::empty());
    lemma_class_len(hi, hi, Shape::Offsuit, w, 0, Seq::empty());
    reveal_with_fuel(class_count_from, 17);
    assert(class_count_from(false, Shape::Offsuit, 0) == 12);
    assert(class_count_from(false, Shape::Suited, 0) == 4);
    assert(class_count_from(false, Shape::Any, 0) == 16);
    assert(class_count_from(true, Shape::Any, 0) == 6);
    assert(class_count_from(true, Shape::Offsuit, 0) == 6);
}

/// Expands a shorthand class into its concrete combos.
pub fn expand_class(hi: u8, lo: u8, shape: Shape, w: u64) -> (r: Vec<HoleCombo>)
    requires
        hi <= 12,
        lo <= 12,
    ensures
        r@ == class_combos(hi, lo, shape, w),
{
    let mut out: Vec<HoleCombo> = Vec::new();
    let mut t: u8 = 0;
    while t < 16
        invariant
            hi <= 12,
            lo <= 12,
            t <= 16,
            class_combos(hi, lo, shape, w) == class_from(hi, lo, shape, w, t as int, out@),
        decreases 16 - t,
    {
        let s1 = t / 4;
        let s2 = t % 4;
        let inside = if hi == lo {
            s1 < s2
        } else {
            match shape {
                Shape::Suited => s1 == s2,
                Shape::Offsuit => s1 != s2,
                Shape::Any => true,
            }
        };
        if inside {
            out.push(HoleCombo { first: 4 * hi + s1, second: 4 * lo + s2, weight: w });
        }
        t = t + 1;
    }
    out
}


/// One token of range notation.
#[derive(Debug, Clone, Copy, PartialEq, Eq, Structural)]
pub enum RangeToken {
    /// A shorthand class such as "AKs", "QQ" or "ATo+" (`plus`: this class
    /// and the stronger ones of its shape), with `hi >= lo` ranks.
    Class { hi: u8, lo: u8, shape: Shape, plus: bool, weight: u64 },
    /// Two named cards such as "AsKh".
    Exact { first: u8, second: u8, weight: u64 },
}

/// Whether two combos hold the same two cards.
pub open spec fn same_cards(a: HoleCombo, b: HoleCombo) -> bool {
    (a.first == b.first && a.second == b.second) || (a.first == b.second && a.second == b.first)
}

/// The first position from `k` on where `acc` holds the cards of `c`.
pub open spec fn index_of_same(acc: Seq<HoleCombo>, c: HoleCombo, k: int) -> Option<int>
    decreases acc.len() - k,
{
    if k < 0 || k >= acc.len() {
        None
    } else if same_cards(acc[k], c) {
        Some(k)
    } else {
        index_of_same(acc, c, k + 1)
    }
}

/// Adds a combo to a range: a combo already present gets the weights
/// summed, capped at 100; a new one is appended.
pub open spec fn merge(acc: Seq<HoleCombo>, c: HoleCombo) -> Seq<HoleCombo> {
    match index_of_same(acc, c, 0) {
        Some(k) => {
            let sum = acc[k].weight + c.weight;
            acc.update(k, HoleCombo { weight: (if sum > 100 { 100 } else { sum }) as u64, ..acc[k] })
        },
        None => acc.push(c),
    }
}

/// Merges `cs[j..]` into `acc`, in order.
pub open spec fn merge_from(acc: Seq<HoleCombo>, cs: Seq<HoleCombo>, j: int) -> Seq<HoleCombo>
    decreases cs.len() - j,
{
    if j < 0 || j >= cs.len() {
        acc
    } else {
        merge_from(merge(acc, cs[j]), cs, j + 1)
    }
}

/// The classes that a "+" token covers from rank `r` on: pocket pairs up to
/// aces, or the kickers below `hi` from `r` upward.
pub open spec fn plus_from(acc: Seq<HoleCombo>, hi: u8, lo: u8, shape: Shape, w: u64, r: int) -> Seq<HoleCombo>
    decreases 13 - r,
{
    let top = if hi == lo { 13 } else { hi as int };
    if r < 0 || r >= top || r >= 13 {
        acc
    } else {
        let cls = if hi == lo { class_combos(r as u8, r as u8, shape, w) } else { class_combos(hi, r as u8, shape, w) };
        plus_from(merge_from(acc, cls, 0), hi, lo, shape, w, r + 1)
    }
}

/// A range with the combos of one token added.
pub open spec fn apply_token(acc: Seq<HoleCombo>, tok: RangeToken) -> Seq<HoleCombo> {
    match tok {
        RangeToken::Exact { first, second, weight } => merge(acc, HoleCombo { first, second, weight }),
        RangeToken::Class { hi, lo, shape, plus, weight } => if plus {
            plus_from(acc, hi, lo, shape, weight, lo as int)
        } else {
            merge_from(acc, class_combos(hi, lo, shape, weight), 0)
        },
    }
}

pub open spec fn is_digit(c: char) -> bool {
    '0' <= c && c <= '9'
}

pub open spec fn digits_value(d: Seq<char>) -> int
    decreases d.len(),
{
    if d.len() == 0 {
        0
    } else {
        digits_value(d.drop_last()) * 10 + (d.last() as int - '0' as int)
    }
}

/// A weight written after '@': one to three digits, at most 100.
pub open spec fn weight_of(d: Seq<char>) -> Option<u64> {
    if 1 <= d.len() <= 3 && (forall|i: int| 0 <= i < d.len() ==> is_digit(#[trigger] d[i])) && 0 <= digits_value(d) <= 100 {
        Some(digits_value(d) as u64)
    } else {
        None
    }
}

/// The shape that a suffix letter names.
pub open spec fn shape_of_char(c: char) -> Option<Shape> {
    if c == 's' || c == 'S' {
        Some(Shape::Suited)
    } else if c == 'o' || c == 'O' {
        Some(Shape::Offsuit)
    } else {
        None
    }
}

/// The shape and "+" flag that the characters after two ranks give.
pub open spec fn suffix_of(x: Seq<char>) -> Option<(Shape, bool)> {
    if x.len() == 0 {
        Some((Shape::Any, false))
    } else if x.len() == 1 && x[0] == '+' {
        Some((Shape::Any, true))
    } else if x.len() == 1 {
        match shape_of_char(x[0]) { Some(s) => Some((s, false)), None => None }
    } else if x.len() == 2 && x[1] == '+' {
        match shape_of_char(x[0]) { Some(s) => Some((s, true)), None => None }
    } else {
        None
    }
}

/// The token that the text before any '@' describes, with weight `w`.
pub open spec fn body_token(b: Seq<char>, w: u64) -> Option<RangeToken> {
    if b.len() == 4 && suit_value(b[1]) is Some {
        match (rank_value(b[0]), suit_value(b[1]), rank_value(b[2]), suit_value(b[3])) {
            (Some(r1), Some(s1), Some(r2), Some(s2)) => {
                let a = (4 * r1 + s1) as u8;
                let c = (4 * r2 + s2) as u8;
                if a != c { Some(RangeToken::Exact { first: a, second: c, weight: w }) } else { None }
            },
            _ => None,
        }
    } else if 2 <= b.len() <= 4 {
        match (rank_value(b[0]), rank_value(b[1]), suffix_of(b.subrange(2, b.len() as int))) {
            (Some(r1), Some(r2), Some((shape, plus))) => {
                let hi = if r1 >= r2 { r1 } else { r2 };
                let lo = if r1 >= r2 { r2 } else { r1 };
                if hi == lo && shape == Shape::Suited {
                    None
                } else {
                    Some(RangeToken::Class { hi, lo, shape, plus, weight: w })
                }
            },
            _ => None,
        }
    } else {
        None
    }
}

/// The first '@' in `t` from `k` on, or the length of `t`.
pub open spec fn at_index(t: Seq<char>, k: int) -> int
    decreases t.len() - k,
{
    if k < 0 || k >= t.len() {
        t.len() as int
    } else if t[k] == '@' {
        k
    } else {
        at_index(t, k + 1)
    }
}

/// The token that a comma-free piece of range text describes, if any.
/// The weight defaults to 100.
pub open spec fn token_of(t: Seq<char>) -> Option<RangeToken> {
    let p = at_index(t, 0);
    let w = if p >= t.len() { Some(100u64) } else { weight_of(t.subrange(p + 1, t.len() as int)) };
    match w {
        Some(w) => body_token(t.subrange(0, p), w),
        None => None,
    }
}

/// Reads the range text from position `i`, with the current token starting
/// at `start` and the combos read so far in `acc`; `None` on a bad token.
pub open spec fn scan(s: Seq<char>, start: int, i: int, acc: Seq<HoleCombo>) -> Option<Seq<HoleCombo>>
    decreases s.len() - i,
{
    if i >= s.len() {
        match token_of(s.subrange(start, s.len() as int)) {
            Some(t) => Some(apply_token(acc, t)),
            None => None,
        }
    } else if s[i] == ',' {
        match token_of(s.subrange(start, i)) {
            Some(t) => scan(s, i + 1, i + 1, apply_token(acc, t)),
            None => None,
        }
    } else {
        scan(s, start, i + 1, acc)
    }
}

/// The combos that comma-separated range text describes, merged in order.
pub open spec fn range_combos(s: Seq<char>) -> Option<Seq<HoleCombo>> {
    scan(s, 0, 0, Seq::empty())
}


/// Adds `c` to the combos of a range, as `merge` says.
pub fn merge_into(acc: &mut Vec<HoleCombo>, c: HoleCombo)
    ensures
        final(acc)@ == merge(old(acc)@, c),
{
    let n = acc.len();
    let mut k: usize = 0;
    while k < n
        invariant
            n == acc@.len(),
            acc@ == old(acc)@,
            k <= n,
            index_of_same(acc@, c, 0) == index_of_same(acc@, c, k as int),
        decreases n - k,
    {
        let a = acc[k];
        if (a.first == c.first && a.second == c.second) || (a.first == c.second && a.second == c.first) {
            let sum: u64 = if a.weight > FULL_WEIGHT || c.weight > FULL_WEIGHT || a.weight + c.weight > FULL_WEIGHT {
                FULL_WEIGHT
            } else {
                a.weight + c.weight
            };
            assert(sum == (if a.weight + c.weight > 100 { 100 } else { a.weight + c.weight }));
            acc.set(k, HoleCombo { weight: sum, ..a });
            return;
        }
        k = k + 1;
    }
    acc.push(c);
}

/// Adds the combos `cs` to a range, one after another.
pub fn merge_all(acc: &mut Vec<HoleCombo>, cs: &Vec<HoleCombo>)
    ensures
        final(acc)@ == merge_from(old(acc)@, cs@, 0),
{
    let n = cs.len();
    let mut j: usize = 0;
    while j < n
        invariant
            n == cs@.len(),
            j <= n,
            merge_from(old(acc)@, cs@, 0) == merge_from(acc@, cs@, j as int),
        decreases n - j,
    {
        merge_into(acc, cs[j]);
        j = j + 1;
    }
}

pub open spec fn token_ranks_ok(tok: RangeToken) -> bool {
    match tok {
        RangeToken::Class { hi, lo, .. } => hi <= 12 && lo <= hi,
        RangeToken::Exact { .. } => true,
    }
}

/// Adds the combos of one token to a range.
pub fn apply(acc: &mut Vec<HoleCombo>, tok: RangeToken)
    requires
        token_ranks_ok(tok),
    ensures
        final(acc)@ == apply_token(old(acc)@, tok),
{
    match tok {
        RangeToken::Exact { first, second, weight } => {
            merge_into(acc, HoleCombo { first, second, weight });
        },
        RangeToken::Class { hi, lo, shape, plus, weight } => {
            if !plus {
                let cls = expand_class(hi, lo, shape, weight);
                merge_all(acc, &cls);
            } else {
                let top: u8 = if hi == lo { 13 } else { hi };
                let mut r: u8 = lo;
                while r < top
                    invariant
                        hi <= 12,
                        lo <= r,
                        top == (if hi == lo { 13 } else { hi as int }),
                        r <= 13,
                        apply_token(old(acc)@, tok) == plus_from(acc@, hi, lo, shape, weight, r as int),
                    decreases 13 - r,
                {
                    let cls = if hi == lo { expand_class(r, r, shape, weight) } else { expand_class(hi, r, shape, weight) };
                    merge_all(acc, &cls);
                    r = r + 1;
                }
            }
        },
    }
}

/// The characters `v[a..b]`.
fn slice(v: &Vec<char>, a: usize, b: usize) -> (r: Vec<char>)
    requires
        a <= b <= v@.len(),
    ensures
        r@ == v@.subrange(a as int, b as int),
{
    let mut r: Vec<char> = Vec::new();
    let mut k: usize = a;
    while k < b
        invariant
            a <= k <= b,
            b <= v@.len(),
            r@ == v@.subrange(a as int, k as int),
        decreases b - k,
    {
        r.push(v[k]);
        k = k + 1;
    }
    r
}

fn shape_from_char(c: char) -> (r: Option<Shape>)
    ensures
        r == shape_of_char(c),
{
    if c == 's' || c == 'S' {
        Some(Shape::Suited)
    } else if c == 'o' || c == 'O' {
        Some(Shape::Offsuit)
    } else {
        None
    }
}

fn parse_suffix(x: &Vec<char>) -> (r: Option<(Shape, bool)>)
    ensures
        r == suffix_of(x@),
{
    let n = x.len();
    if n == 0 {
        Some((Shape::Any, false))
    } else if n == 1 && x[0] == '+' {
        Some((Shape::Any, true))
    } else if n == 1 {
        match shape_from_char(x[0]) {
            Some(s) => Some((s, false)),
            None => None,
        }
    } else if n == 2 && x[1] == '+' {
        match shape_from_char(x[0]) {
            Some(s) => Some((s, true)),
            None => None,
        }
    } else {
        None
    }
}

fn parse_weight(d: &Vec<char>) -> (r: Option<u64>)
    ensures
        r == weight_of(d@),
{
    let n = d.len();
    if n < 1 || n > 3 {
        return None;
    }
    let mut v: u64 = 0;
    let mut k: usize = 0;
    while k < n
        invariant
            n == d@.len(),
            1 <= n <= 3,
            k <= n,
            forall|i: int| 0 <= i < k ==> is_digit(#[trigger] d@[i]),
            v == digits_value(d@.subrange(0, k as int)),
            v < 1000,
            k < 3 ==> v < 100,
            k < 2 ==> v < 10,
        decreases n - k,
    {
        let c = d[k];
        if !('0' <= c && c <= '9') {
            return None;
        }
        proof {
            let sub = d@.subrange(0, k + 1);
            assert(sub.drop_last() == d@.subrange(0, k as int));
            assert(sub.last() == c);
        }
        v = v * 10 + (c as u64 - '0' as u64);
        k = k + 1;
    }
    assert(d@.subrange(0, n as int) == d@);
    if v > 100 {
        return None;
    }
    Some(v)
}

fn parse_body(b: &Vec<char>, w: u64) -> (r: Option<RangeToken>)
    ensures
        r == body_token(b@, w),
        r matches Some(tok) ==> token_ranks_ok(tok),
{
    let n = b.len();
    if n == 4 && suit_from_char(b[1]).is_some() {
        match (rank_from_char(b[0]), suit_from_char(b[1]), rank_from_char(b[2]), suit_from_char(b[3])) {
            (Some(r1), Some(s1), Some(r2), Some(s2)) => {
                let a = 4 * r1 + s1;
                let c = 4 * r2 + s2;
                if a != c {
                    Some(RangeToken::Exact { first: a, second: c, weight: w })
                } else {
                    None
                }
            },
            _ => None,
        }
    } else if 2 <= n && n <= 4 {
        let x = slice(b, 2, n);
        match (rank_from_char(b[0]), rank_from_char(b[1]), parse_suffix(&x)) {
            (Some(r1), Some(r2), Some((shape, plus))) => {
                let hi = if r1 >= r2 { r1 } else { r2 };
                let lo = if r1 >= r2 { r2 } else { r1 };
                if hi == lo && shape == Shape::Suited {
                    None
                } else {
                    Some(RangeToken::Class { hi, lo, shape, plus, weight: w })
                }
            },
            _ => None,
        }
    } else {
        None
    }
}

/// Reads one comma-free token of range notation.
pub fn parse_token(t: &Vec<char>) -> (r: Option<RangeToken>)
    ensures
        r == token_of(t@),
        r matches Some(tok) ==> token_ranks_ok(tok),
{
    let n = t.len();
    let mut p: usize = 0;
    while p < n && t[p] != '@'
        invariant
            n == t@.len(),
            p <= n,
            at_index(t@, 0) == at_index(t@, p as int),
        decreases n - p,
    {
        p = p + 1;
    }
    let w = if p >= n {
        Some(100u64)
    } else {
        let d = slice(t, p + 1, n);
        parse_weight(&d)
    };
    match w {
        Some(w) => {
            let body = slice(t, 0, p);
            parse_body(&body, w)
        },
        None => None,
    }
}

/// The characters of `text`.
pub fn chars_of(text: &str) -> (r: Vec<char>)
    ensures
        r@ == text@,
{
    let n = text.unicode_len();
    let mut r: Vec<char> = Vec::new();
    let mut k: usize = 0;
    while k < n
        invariant
            n == text@.len(),
            k <= n,
            r@ == text@.subrange(0, k as int),
        decreases n - k,
    {
        r.push(text.get_char(k));
        k = k + 1;
    }
    r
}

/// The combos that range text describes, or `None` on a bad token.
pub fn read_combos(s: &Vec<char>) -> (r: Option<Vec<HoleCombo>>)
    ensures
        match r {
            Some(v) => range_combos(s@) == Some(v@),
            None => range_combos(s@) is None,
        },
{
    let n = s.len();
    let mut acc: Vec<HoleCombo> = Vec::new();
    let mut start: usize = 0;
    let mut i: usize = 0;
    while i < n
        invariant
            n == s@.len(),
            start <= i <= n,
            range_combos(s@) == scan(s@, start as int, i as int, acc@),
        decreases n - i,
    {
        if s[i] == ',' {
            let t = slice(s, start, i);
            match parse_token(&t) {
                Some(tok) => apply(&mut acc, tok),
                None => return None,
            }
            start = i + 1;
        }
        i = i + 1;
    }
    let t = slice(s, start, n);
    match parse_token(&t) {
        Some(tok) => apply(&mut acc, tok),
        None => return None,
    }
    Some(acc)
}

/// What reading range text yields: `EmptyRange` for empty text or a range
/// of zero total weight, `MalformedRange` for a bad token.
pub open spec fn range_outcome_ok(s: Seq<char>, r: Result<WeightedRange, EquityError>) -> bool {
    if s.len() == 0 {
        r == Err::<WeightedRange, EquityError>(EquityError::EmptyRange)
    } else {
        match range_combos(s) {
            None => r == Err::<WeightedRange, EquityError>(EquityError::MalformedRange),
            Some(cs) => if cs.len() > crate::range::MAX_COMBOS {
                r == Err::<WeightedRange, EquityError>(EquityError::MalformedRange)
            } else if crate::range::total_weight(cs) == 0 {
                r == Err::<WeightedRange, EquityError>(EquityError::EmptyRange)
            } else {
                r matches Ok(w) && w.wf() && w.combos@ == cs
            },
        }
    }
}


pub open spec fn all_valid(s: Seq<HoleCombo>) -> bool {
    forall|k: int| 0 <= k < s.len() ==> crate::range::valid_combo(#[trigger] s[k])
}

pub open spec fn token_valid(tok: RangeToken) -> bool {
    match tok {
        RangeToken::Class { hi, lo, weight, .. } => hi <= 12 && lo <= hi && weight <= 100,
        RangeToken::Exact { first, second, weight } => is_card(first) && is_card(second) && first != second && weight <= 100,
    }
}

proof fn lemma_token_valid(t: Seq<char>)
    ensures
        token_of(t) matches Some(tok) ==> token_valid(tok),
{
}

proof fn lemma_class_valid(hi: u8, lo: u8, shape: Shape, w: u64, t: int, acc: Seq<HoleCombo>)
    requires
        hi <= 12,
        lo <= 12,
        w <= 100,
        all_valid(acc),
    ensures
        all_valid(class_from(hi, lo, shape, w, t, acc)),
    decreases 16 - t,
{
    if 0 <= t < 16 {
        let s1 = t / 4;
        let s2 = t % 4;
        let c = HoleCombo { first: (4 * hi + s1) as u8, second: (4 * lo + s2) as u8, weight: w };
        if suits_in_class(hi == lo, shape, s1, s2) {
            assert(crate::range::valid_combo(c));
            assert(all_valid(acc.push(c)));
            lemma_class_valid(hi, lo, shape, w, t + 1, acc.push(c));
        } else {
            lemma_class_valid(hi, lo, shape, w, t + 1, acc);
        }
    }
}

proof fn lemma_index_of_same(acc: Seq<HoleCombo>, c: HoleCombo, k: int)
    ensures
        index_of_same(acc, c, k) matches Some(j) ==> 0 <= j < acc.len(),
    decreases acc.len() - k,
{
    if 0 <= k < acc.len() && !same_cards(acc[k], c) {
        lemma_index_of_same(acc, c, k + 1);
    }
}

proof fn lemma_merge_valid(acc: Seq<HoleCombo>, c: HoleCombo)
    requires
        all_valid(acc),
        crate::range::valid_combo(c),
    ensures
        all_valid(merge(acc, c)),
{
    lemma_index_of_same(acc, c, 0);
    if let Some(k) = index_of_same(acc, c, 0) {
        assert(crate::range::valid_combo(acc[k]));
    } else {
        assert(all_valid(acc.push(c)));
    }
}

proof fn lemma_merge_from_valid(acc: Seq<HoleCombo>, cs: Seq<HoleCombo>, j: int)
    requires
        all_valid(acc),
        all_valid(cs),
    ensures
        all_valid(merge_from(acc, cs, j)),
    decreases cs.len() - j,
{
    if 0 <= j < cs.len() {
        lemma_merge_valid(acc, cs[j]);
        lemma_merge_from_valid(merge(acc, cs[j]), cs, j + 1);
    }
}

proof fn lemma_plus_valid(acc: Seq<HoleCombo>, hi: u8, lo: u8, shape: Shape, w: u64, r: int)
    requires
        hi <= 12,
        w <= 100,
        all_valid(acc),
    ensures
        all_valid(plus_from(acc, hi, lo, shape, w, r)),
    decreases 13 - r,
{
    let top = if hi == lo { 13 } else { hi as int };
    if !(r < 0 || r >= top || r >= 13) {
        let cls = if hi == lo { class_combos(r as u8, r as u8, shape, w) } else { class_combos(hi, r as u8, shape, w) };
        if hi == lo {
            lemma_class_valid(r as u8, r as u8, shape, w, 0, Seq::empty());
        } else {
            lemma_class_valid(hi, r as u8, shape, w, 0, Seq::empty());
        }
        lemma_merge_from_valid(acc, cls, 0);
        lemma_plus_valid(merge_from(acc, cls, 0), hi, lo, shape, w, r + 1);
    }
}

proof fn lemma_apply_valid(acc: Seq<HoleCombo>, tok: RangeToken)
    requires
        all_valid(acc),
        token_valid(tok),
    ensures
        all_valid(apply_token(acc, tok)),
{
    match tok {
        RangeToken::Exact { first, second, weight } => {
            lemma_merge_valid(acc, HoleCombo { first, second, weight });
        },
        RangeToken::Class { hi, lo, shape, plus, weight } => {
            if plus {
                lemma_plus_valid(acc, hi, lo, shape, weight, lo as int);
            } else {
                lemma_class_valid(hi, lo, shape, weight, 0, Seq::empty());
                lemma_merge_from_valid(acc, class_combos(hi, lo, shape, weight), 0);
            }
        },
    }
}

proof fn lemma_scan_valid(s: Seq<char>, start: int, i: int, acc: Seq<HoleCombo>)
    requires
        all_valid(acc),
    ensures
        scan(s, start, i, acc) matches Some(cs) ==> all_valid(cs),
    decreases s.len() - i,
{
    if i >= s.len() {
        lemma_token_valid(s.subrange(start, s.len() as int));
        if let Some(t) = token_of(s.subrange(start, s.len() as int)) {
            lemma_apply_valid(acc, t);
        }
    } else if s[i] == ',' {
        lemma_token_valid(s.subrange(start, i));
        if let Some(t) = token_of(s.subrange(start, i)) {
            lemma_apply_valid(acc, t);
            lemma_scan_valid(s, i + 1, i + 1, apply_token(acc, t));
        }
    } else {
        lemma_scan_valid(s, start, i + 1, acc);
    }
}

/// Reads a range written in the usual notation: comma-separated tokens,
/// each a class ("QQ", "AKs", "AKo", "AK", with "+" for this class and the
/// stronger ones of its shape: "TT+" is tens to aces, "ATs+" is ATs to AKs)
/// or two named cards ("AsKh"), with an optional weight "@0" .. "@100"
/// (default 100), with no spaces. A combo named twice gets the summed
/// weight, capped at 100.
pub fn parse_range(text: &str) -> (r: Result<WeightedRange, EquityError>)
    ensures
        range_outcome_ok(text@, r),
{
    let s = chars_of(text);
    if s.len() == 0 {
        return Err(EquityError::EmptyRange);
    }
    match read_combos(&s) {
        None => Err(EquityError::MalformedRange),
        Some(cs) => {
            proof {
                lemma_scan_valid(s@, 0, 0, Seq::empty());
            }
            WeightedRange::from_combos(cs)
        },
    }
}

} // verus!
