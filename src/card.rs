use vstd::prelude::*;

use crate::error::EquityError;

verus! {

/// Number of distinct cards in a standard deck.
pub const DECK_SIZE: u8 = 52;

/// A card is the index `4 * rank + suit`, with ranks `0 ('2') ..= 12 ('A')`
/// and suits `0 (s), 1 (h), 2 (d), 3 (c)`.
pub open spec fn is_card(c: u8) -> bool {
    c < 52
}

pub open spec fn rank_of(c: u8) -> int {
    c as int / 4
}

pub open spec fn suit_of(c: u8) -> int {
    c as int % 4
}

/// The rank that a character denotes, in either case.
pub open spec fn rank_value(ch: char) -> Option<u8> {
    if ch == '2' { Some(0u8) }
    else if ch == '3' { Some(1u8) }
    else if ch == '4' { Some(2u8) }
    else if ch == '5' { Some(3u8) }
    else if ch == '6' { Some(4u8) }
    else if ch == '7' { Some(5u8) }
    else if ch == '8' { Some(6u8) }
    else if ch == '9' { Some(7u8) }
    else if ch == 't' || ch == 'T' { Some(8u8) }
    else if ch == 'j' || ch == 'J' { Some(9u8) }
    else if ch == 'q' || ch == 'Q' { Some(10u8) }
    else if ch == 'k' || ch == 'K' { Some(11u8) }
    else if ch == 'a' || ch == 'A' { Some(12u8) }
    else { None }
}

/// The suit that a character denotes, in either case.
pub open spec fn suit_value(ch: char) -> Option<u8> {
    if ch == 's' || ch == 'S' { Some(0u8) }
    else if ch == 'h' || ch == 'H' { Some(1u8) }
    else if ch == 'd' || ch == 'D' { Some(2u8) }
    else if ch == 'c' || ch == 'C' { Some(3u8) }
    else { None }
}

/// The card written as a rank character followed by a suit character.
pub open spec fn card_value(r: char, s: char) -> Option<u8> {
    match (rank_value(r), suit_value(s)) {
        (Some(rv), Some(sv)) => Some((4 * rv + sv) as u8),
        _ => None,
    }
}

pub fn rank_from_char(ch: char) -> (r: Option<u8>)
    ensures
        r == rank_value(ch),
{
    match ch {
        '2' => Some(0),
        '3' => Some(1),
        '4' => Some(2),
        '5' => Some(3),
        '6' => Some(4),
        '7' => Some(5),
        '8' => Some(6),
        '9' => Some(7),
        't' | 'T' => Some(8),
        'j' | 'J' => Some(9),
        'q' | 'Q' => Some(10),
        'k' | 'K' => Some(11),
        'a' | 'A' => Some(12),
        _ => None,
    }
}

pub fn suit_from_char(ch: char) -> (r: Option<u8>)
    ensures
        r == suit_value(ch),
{
    match ch {
        's' | 'S' => Some(0),
        'h' | 'H' => Some(1),
        'd' | 'D' => Some(2),
        'c' | 'C' => Some(3),
        _ => None,
    }
}

pub fn card_from_chars(r: char, s: char) -> (c: Option<u8>)
    ensures
        c == card_value(r, s),
        c matches Some(v) ==> is_card(v),
{
    match (rank_from_char(r), suit_from_char(s)) {
        (Some(rv), Some(sv)) => Some(4 * rv + sv),
        _ => None,
    }
}

/// Whether the text is a sequence of two-character card tokens.
pub open spec fn cards_well_formed(s: Seq<char>) -> bool {
    &&& s.len() % 2 == 0
    &&& forall|i: int| 0 <= i < s.len() / 2 ==> (#[trigger] card_value(s[2 * i], s[2 * i + 1])).is_some()
}

/// The cards that a well-formed text lists, in order.
pub open spec fn cards_of(s: Seq<char>) -> Seq<u8> {
    Seq::new(s.len() / 2, |i: int| card_value(s[2 * i], s[2 * i + 1]).unwrap())
}

pub open spec fn no_duplicates(cards: Seq<u8>) -> bool {
    forall|i: int, j: int| 0 <= i < j < cards.len() ==> cards[i] != cards[j]
}

/// A board holds no cards (pre-flop), three (flop), four (turn) or five (river).
pub open spec fn board_size_ok(n: int) -> bool {
    n == 0 || n == 3 || n == 4 || n == 5
}

/// What reading a board text yields.
pub open spec fn board_outcome(s: Seq<char>) -> Result<Seq<u8>, EquityError> {
    if !cards_well_formed(s) {
        Err(EquityError::MalformedBoard)
    } else if !board_size_ok(cards_of(s).len() as int) {
        Err(EquityError::InvalidBoardSize)
    } else if !no_duplicates(cards_of(s)) {
        Err(EquityError::DuplicateCard)
    } else {
        Ok(cards_of(s))
    }
}

pub open spec fn view_cards_result(r: Result<Vec<u8>, EquityError>) -> Result<Seq<u8>, EquityError> {
    match r {
        Ok(v) => Ok(v@),
        Err(e) => Err(e),
    }
}

/// Reads the cards of `text`, two characters each, with no separators.
pub fn parse_cards(text: &str) -> (r: Option<Vec<u8>>)
    ensures
        r is Some <==> cards_well_formed(text@),
        r matches Some(v) ==> v@ == cards_of(text@),
{
    let n = text.unicode_len();
    if n % 2 != 0 {
        return None;
    }
    let mut out: Vec<u8> = Vec::new();
    let mut i: usize = 0;
    while i < n / 2
        invariant
            n == text@.len(),
            n % 2 == 0,
            i <= n / 2,
            out@.len() == i,
            forall|k: int| 0 <= k < i ==> (#[trigger] card_value(text@[2 * k], text@[2 * k + 1])) == Some(out@[k]),
        decreases n / 2 - i,
    {
        let c = card_from_chars(text.get_char(2 * i), text.get_char(2 * i + 1));
        match c {
            Some(v) => out.push(v),
            None => {
                assert(!cards_well_formed(text@));
                return None;
            }
        }
        i = i + 1;
    }
    assert(out@ =~= cards_of(text@));
    Some(out)
}

/// Whether no card occurs twice in `cards`.
pub fn all_distinct(cards: &Vec<u8>) -> (r: bool)
    ensures
        r == no_duplicates(cards@),
{
    let n = cards.len();
    let mut i: usize = 0;
    while i < n
        invariant
            n == cards@.len(),
            i <= n,
            forall|a: int, b: int| 0 <= a < b < n && a < i ==> cards@[a] != cards@[b],
        decreases n - i,
    {
        let mut j: usize = i + 1;
        while j < n
            invariant
                n == cards@.len(),
                i < n,
                i + 1 <= j <= n,
                forall|a: int, b: int| 0 <= a < b < n && a < i ==> cards@[a] != cards@[b],
                forall|b: int| i < b < j ==> cards@[i as int] != cards@[b],
            decreases n - j,
        {
            if cards[i] == cards[j] {
                return false;
            }
            j = j + 1;
        }
        i = i + 1;
    }
    true
}

/// Reads a board: 0, 3, 4 or 5 distinct cards written without separators
/// ("" before the flop, "AsKd7c" on the flop).
pub fn parse_board(text: &str) -> (r: Result<Vec<u8>, EquityError>)
    ensures
        view_cards_result(r) == board_outcome(text@),
{
    match parse_cards(text) {
        None => Err(EquityError::MalformedBoard),
        Some(cards) => {
            let n = cards.len();
            if !(n == 0 || n == 3 || n == 4 || n == 5) {
                Err(EquityError::InvalidBoardSize)
            } else if !all_distinct(&cards) {
                Err(EquityError::DuplicateCard)
            } else {
                Ok(cards)
            }
        }
    }
}


/// The 64-bit set of `cards`: bit `c` is set for each card `c`.
pub open spec fn mask_of(cards: Seq<u8>) -> u64
    decreases cards.len(),
{
    if cards.len() == 0 {
        0
    } else {
        mask_of(cards.drop_last()) | (1u64 << (cards.last() as u64))
    }
}

/// The bit set of `cards`, in the layout that hand evaluators key on.
pub fn card_mask(cards: &Vec<u8>) -> (r: u64)
    requires
        forall|i: int| 0 <= i < cards@.len() ==> is_card(#[trigger] cards@[i]),
    ensures
        r == mask_of(cards@),
{
    let mut m: u64 = 0;
    let mut i: usize = 0;
    while i < cards.len()
        invariant
            i <= cards@.len(),
            forall|k: int| 0 <= k < cards@.len() ==> is_card(#[trigger] cards@[k]),
            m == mask_of(cards@.subrange(0, i as int)),
        decreases cards@.len() - i,
    {
        let c = cards[i];
        proof {
            let next = cards@.subrange(0, i + 1);
            assert(next.drop_last() == cards@.subrange(0, i as int));
            assert(next.last() == c);
        }
        m = m | (1u64 << (c as u64));
        i = i + 1;
    }
    assert(cards@.subrange(0, cards@.len() as int) == cards@);
    m
}

} // verus!
