use vstd::prelude::*;

use crate::card::{is_card, no_duplicates};
use crate::rng::{next_state, Rng64};

verus! {

/// The cards `0 .. k` that `blocked` does not hold, in increasing order.
pub open spec fn deck_upto(k: nat, blocked: Seq<u8>) -> Seq<u8>
    decreases k,
{
    if k == 0 {
        Seq::empty()
    } else {
        let prev = deck_upto((k - 1) as nat, blocked);
        let c = (k - 1) as u8;
        if blocked.contains(c) { prev } else { prev.push(c) }
    }
}

/// The 52-card universe without the cards of `blocked`, in canonical order.
pub open spec fn deck_without(blocked: Seq<u8>) -> Seq<u8> {
    deck_upto(52, blocked)
}

/// The deck holds each unblocked card below `k` once, in increasing order,
/// and no blocked card.
pub proof fn lemma_deck_upto_members(k: nat, blocked: Seq<u8>)
    requires
        k <= 52,
    ensures
        forall|i: int| 0 <= i < deck_upto(k, blocked).len() ==> {
            let c = #[trigger] deck_upto(k, blocked)[i];
            c < k && !blocked.contains(c)
        },
        forall|i: int, j: int| 0 <= i < j < deck_upto(k, blocked).len()
            ==> deck_upto(k, blocked)[i] < deck_upto(k, blocked)[j],
        deck_upto(k, blocked).len() <= k,
    decreases k,
{
    if k > 0 {
        lemma_deck_upto_members((k - 1) as nat, blocked);
    }
}

/// The deck that remains once the cards of `blocked` are taken out.
pub fn remaining_deck(blocked: &Vec<u8>) -> (r: Vec<u8>)
    ensures
        r@ == deck_without(blocked@),
{
    let mut out: Vec<u8> = Vec::new();
    let mut k: u8 = 0;
    while k < 52
        invariant
            k <= 52,
            out@ == deck_upto(k as nat, blocked@),
        decreases 52 - k,
    {
        let mut hit = false;
        let mut j: usize = 0;
        while j < blocked.len()
            invariant
                j <= blocked@.len(),
                hit <==> blocked@.subrange(0, j as int).contains(k),
            decreases blocked@.len() - j,
        {
            if blocked[j] == k {
                hit = true;
            }
            proof {
                let s1 = blocked@.subrange(0, j as int);
                let s2 = blocked@.subrange(0, j + 1);
                assert(s2 == s1.push(blocked@[j as int]));
                if blocked@[j as int] == k {
                    assert(s2[j as int] == k);
                }
                if s1.contains(k) {
                    let t = choose|t: int| 0 <= t < s1.len() && s1[t] == k;
                    assert(s2[t] == k);
                }
                if s2.contains(k) && blocked@[j as int] != k {
                    let t = choose|t: int| 0 <= t < s2.len() && s2[t] == k;
                    assert(s1[t] == k);
                }
            }
            j = j + 1;
        }
        assert(blocked@.subrange(0, blocked@.len() as int) == blocked@);
        if !hit {
            out.push(k);
        }
        k = k + 1;
    }
    out
}

/// Drawing `n` cards from `deck`: each draw takes the card at a position
/// below the deck's length from one step of the generator and removes it.
/// Yields the cards drawn, the deck left and the generator's state after.
pub open spec fn draw_outcome(deck: Seq<u8>, n: nat, state: u64) -> (Seq<u8>, Seq<u8>, u64)
    decreases n,
{
    if n == 0 || deck.len() == 0 {
        (Seq::empty(), deck, state)
    } else {
        let s1 = next_state(state);
        let idx = (s1 % (deck.len() as u64)) as int;
        let rec = draw_outcome(deck.remove(idx), (n - 1) as nat, s1);
        (seq![deck[idx]] + rec.0, rec.1, rec.2)
    }
}

/// The cards drawn are distinct cards of the deck, and the deck left holds
/// none of them.
pub proof fn lemma_draw_members(deck: Seq<u8>, n: nat, state: u64)
    requires
        no_duplicates(deck),
        deck.len() <= u64::MAX,
    ensures
        no_duplicates(draw_outcome(deck, n, state).0),
        forall|i: int| 0 <= i < draw_outcome(deck, n, state).0.len()
            ==> deck.contains(#[trigger] draw_outcome(deck, n, state).0[i]),
    decreases n,
{
    if n > 0 && deck.len() > 0 {
        let s1 = next_state(state);
        let idx = (s1 % (deck.len() as u64)) as int;
        assert(0 <= idx < deck.len());
        let rest = deck.remove(idx);
        assert forall|a: int, b: int| 0 <= a < b < rest.len() implies rest[a] != rest[b] by {
            let a2 = if a < idx { a } else { a + 1 };
            let b2 = if b < idx { b } else { b + 1 };
            assert(rest[a] == deck[a2] && rest[b] == deck[b2]);
        }
        lemma_draw_members(rest, (n - 1) as nat, s1);
        let rec = draw_outcome(rest, (n - 1) as nat, s1);
        let out = draw_outcome(deck, n, state).0;
        assert(out == seq![deck[idx]] + rec.0);
        assert forall|i: int| 0 <= i < rec.0.len() implies deck.contains(#[trigger] rec.0[i]) && rec.0[i] != deck[idx] by {
            let j = choose|j: int| 0 <= j < rest.len() && rest[j] == rec.0[i];
            let j2 = if j < idx { j } else { j + 1 };
            assert(deck[j2] == rec.0[i]);
        }
        assert forall|i: int| 0 <= i < out.len() implies deck.contains(#[trigger] out[i]) by {
            if i == 0 {
                assert(deck[idx] == out[0]);
            } else {
                assert(out[i] == rec.0[i - 1]);
            }
        }
        assert forall|a: int, b: int| 0 <= a < b < out.len() implies out[a] != out[b] by {
            assert(out[b] == rec.0[b - 1]);
            if a > 0 {
                assert(out[a] == rec.0[a - 1]);
            }
        }
    }
}

/// Drawing `n` cards from a deck of at least `n` yields `n` cards.
pub proof fn lemma_draw_len(deck: Seq<u8>, n: nat, state: u64)
    requires
        n <= deck.len(),
        deck.len() <= u64::MAX,
    ensures
        draw_outcome(deck, n, state).0.len() == n,
    decreases n,
{
    if n > 0 {
        let s1 = next_state(state);
        let idx = (s1 % (deck.len() as u64)) as int;
        lemma_draw_len(deck.remove(idx), (n - 1) as nat, s1);
    }
}

/// Draws `n` cards uniformly without replacement, removing them from `deck`.
pub fn draw_cards(deck: &mut Vec<u8>, n: usize, rng: &mut Rng64) -> (r: Vec<u8>)
    requires
        n <= old(deck)@.len(),
        old(deck)@.len() <= u64::MAX,
    ensures
        (r@, final(deck)@, final(rng).state) == draw_outcome(old(deck)@, n as nat, old(rng).state),
        r@.len() == n,
        final(deck)@.len() == old(deck)@.len() - n,
{
    let ghost deck0 = deck@;
    let ghost st0 = rng.state;
    let mut out: Vec<u8> = Vec::new();
    let mut i: usize = 0;
    while i < n
        invariant
            i <= n,
            n <= deck0.len(),
            deck@.len() == deck0.len() - i,
            deck0.len() <= u64::MAX,
            out@.len() == i,
            ({
                let rec = draw_outcome(deck@, (n - i) as nat, rng.state);
                draw_outcome(deck0, n as nat, st0) == (out@ + rec.0, rec.1, rec.2)
            }),
        decreases n - i,
    {
        let ghost before = deck@;
        let ghost st = rng.state;
        let len = deck.len();
        let idx = rng.below(len as u64) as usize;
        let c = deck.remove(idx);
        proof {
            let rec = draw_outcome(deck@, (n - i - 1) as nat, rng.state);
            assert(draw_outcome(before, (n - i) as nat, st) == (seq![c] + rec.0, rec.1, rec.2));
            assert(out@.push(c) + rec.0 == out@ + (seq![c] + rec.0));
        }
        out.push(c);
        i = i + 1;
    }
    proof {
        assert(out@ + Seq::<u8>::empty() == out@);
    }
    out
}

} // verus!
