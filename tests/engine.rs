use poker_engine::card::{card_mask, parse_board};
use poker_engine::deck::{draw_cards, remaining_deck};
use poker_engine::error::EquityError;
use poker_engine::notation::parse_range;
use poker_engine::query::{start_query, RETRY_BUDGET};
use poker_engine::range::{HoleCombo, WeightedRange};
use poker_engine::rng::{Rng64, DEFAULT_STATE};
use poker_engine::sim::{deal, Deal, Simulation};
use poker_engine::tally::{showdown, EquityTally, Showdown};

fn card(text: &str) -> u8 {
    let v = parse_board(&format!("{}{}{}", text, "2c", "3c")).unwrap();
    v[0]
}

fn combos(text: &str) -> Vec<HoleCombo> {
    parse_range(text).unwrap().combos
}

/// A stand-in score for tests that do not depend on hand strength.
fn toy_score(cards: &[u8]) -> u16 {
    cards.iter().map(|c| (*c as u16) % 7).sum()
}

fn all_distinct(d: &Deal) -> bool {
    let mut all = vec![d.hero.first, d.hero.second, d.villain.first, d.villain.second];
    all.extend(d.board.iter().copied());
    let mut sorted = all.clone();
    sorted.sort();
    sorted.dedup();
    sorted.len() == all.len()
}

#[test]
fn board_flop_reads_three_cards() {
    assert_eq!(parse_board("AsKd7c").unwrap(), vec![48, 46, 23]);
    assert_eq!(parse_board("asKD7C").unwrap(), vec![48, 46, 23]);
}

#[test]
fn board_empty_is_preflop() {
    assert_eq!(parse_board("").unwrap(), Vec::<u8>::new());
}

#[test]
fn board_errors() {
    assert_eq!(parse_board("AsK"), Err(EquityError::MalformedBoard));
    assert_eq!(parse_board("XsKd7c"), Err(EquityError::MalformedBoard));
    assert_eq!(parse_board("AsKd"), Err(EquityError::InvalidBoardSize));
    assert_eq!(parse_board("AsKd7c2h3h4h"), Err(EquityError::InvalidBoardSize));
    assert_eq!(parse_board("AsAsKd"), Err(EquityError::DuplicateCard));
}

#[test]
fn card_indices() {
    assert_eq!(card("2s"), 0);
    assert_eq!(card("Ac"), 51);
    assert_eq!(card("Th"), 33);
}

#[test]
fn shorthand_expansion_counts() {
    assert_eq!(combos("AKo").len(), 12);
    assert_eq!(combos("AKs").len(), 4);
    assert_eq!(combos("QQ").len(), 6);
    assert_eq!(combos("AK").len(), 16);
    assert_eq!(combos("KA").len(), 16);
    assert_eq!(combos("TT+").len(), 30);
    assert_eq!(combos("ATs+").len(), 16);
    assert_eq!(combos("22,AKs").len(), 10);
    assert_eq!(combos("AsKh").len(), 1);
}

#[test]
fn suited_combos_share_a_suit() {
    for c in combos("AKs") {
        assert_eq!(c.first % 4, c.second % 4);
        assert_eq!(c.first / 4, 12);
        assert_eq!(c.second / 4, 11);
        assert_eq!(c.weight, 100);
    }
    for c in combos("AKo") {
        assert_ne!(c.first % 4, c.second % 4);
    }
}

#[test]
fn overlapping_tokens_merge_weights() {
    assert_eq!(combos("AKs,AsKs").len(), 4);
    let w = combos("AsKh@30,KhAs@20");
    assert_eq!(w.len(), 1);
    assert_eq!(w[0].weight, 50);
    let capped = combos("AsKh@60,AsKh@70");
    assert_eq!(capped[0].weight, 100);
    for c in combos("AA@50") {
        assert_eq!(c.weight, 50);
    }
}

#[test]
fn range_errors() {
    assert_eq!(parse_range("").unwrap_err(), EquityError::EmptyRange);
    assert_eq!(parse_range("AA@0").unwrap_err(), EquityError::EmptyRange);
    assert_eq!(parse_range("AXs").unwrap_err(), EquityError::MalformedRange);
    assert_eq!(parse_range("AA@101").unwrap_err(), EquityError::MalformedRange);
    assert_eq!(parse_range("AAs").unwrap_err(), EquityError::MalformedRange);
    assert_eq!(parse_range("AsAs").unwrap_err(), EquityError::MalformedRange);
    assert_eq!(parse_range("AA,").unwrap_err(), EquityError::MalformedRange);
}

#[test]
fn weighted_pick_follows_cumulative_weights() {
    let r = parse_range("AsKh@25,QsJh@75").unwrap();
    assert_eq!(r.total, 100);
    assert_eq!(r.pick(0), 0);
    assert_eq!(r.pick(24), 0);
    assert_eq!(r.pick(25), 1);
    assert_eq!(r.pick(99), 1);
}

#[test]
fn from_combos_refuses_bad_combos() {
    let bad = vec![HoleCombo { first: 3, second: 3, weight: 10 }];
    assert_eq!(WeightedRange::from_combos(bad).unwrap_err(), EquityError::MalformedRange);
    let heavy = vec![HoleCombo { first: 3, second: 4, weight: 101 }];
    assert_eq!(WeightedRange::from_combos(heavy).unwrap_err(), EquityError::MalformedRange);
    let zero = vec![HoleCombo { first: 3, second: 4, weight: 0 }];
    assert_eq!(WeightedRange::from_combos(zero).unwrap_err(), EquityError::EmptyRange);
}

#[test]
fn xorshift_step_value() {
    let mut r = Rng64::new(1);
    assert_eq!(r.next_u64(), 1082269761);
    assert_eq!(Rng64::new(0).state, DEFAULT_STATE);
    let mut b = Rng64::new(7);
    for _ in 0..100 {
        assert!(b.below(13) < 13);
    }
}

#[test]
fn same_seed_same_numbers() {
    let mut a = Rng64::new(42);
    let mut b = Rng64::new(42);
    for _ in 0..20 {
        assert_eq!(a.next_u64(), b.next_u64());
    }
}

#[test]
fn deck_without_dead_cards() {
    let d = remaining_deck(&vec![0, 1, 51]);
    assert_eq!(d.len(), 49);
    assert_eq!(d[0], 2);
    assert_eq!(*d.last().unwrap(), 50);
    assert_eq!(remaining_deck(&vec![]).len(), 52);
}

#[test]
fn drawing_removes_cards() {
    let mut deck = remaining_deck(&vec![]);
    let mut rng = Rng64::new(9);
    let drawn = draw_cards(&mut deck, 5, &mut rng);
    assert_eq!(drawn.len(), 5);
    assert_eq!(deck.len(), 47);
    for c in &drawn {
        assert!(!deck.contains(c));
    }
    let none = draw_cards(&mut deck, 0, &mut rng);
    assert!(none.is_empty());
    assert_eq!(deck.len(), 47);
}

#[test]
fn mask_sets_one_bit_per_card() {
    assert_eq!(card_mask(&vec![0, 51]), 1u64 | (1u64 << 51));
    assert_eq!(card_mask(&vec![]), 0);
    assert_eq!(card_mask(&vec![5, 5]), 1u64 << 5);
}

#[test]
fn showdown_and_seat_symmetry() {
    assert_eq!(showdown(5, 3), Showdown::HeroWins);
    assert_eq!(showdown(3, 5), Showdown::VillainWins);
    assert_eq!(showdown(4, 4), Showdown::Tie);
    let mut t = EquityTally::new();
    t.record(showdown(5, 3));
    t.record(showdown(4, 4));
    let mut u = EquityTally::new();
    u.record(showdown(3, 5));
    u.record(showdown(4, 4));
    assert_eq!(t.swapped(), u);
    assert_eq!(t, EquityTally { hero_wins: 1, villain_wins: 0, ties: 1 });
}

#[test]
fn deals_keep_cards_apart() {
    let mut sim = start_query("AA,KK", "AKs,QQ+", "Ah7d2c", 200, 5).unwrap();
    while let Some(d) = sim.next_deal().unwrap() {
        assert!(all_distinct(&d));
        assert_eq!(d.board.len(), 5);
        assert_eq!(&d.board[..3], &[49, 22, 3]);
        assert_eq!(d.hero_cards().len(), 7);
        assert_eq!(d.villain_cards().len(), 7);
        sim.record(toy_score(&d.hero_cards()), toy_score(&d.villain_cards()));
    }
}

#[test]
fn tally_counts_every_trial() {
    let mut sim = start_query("AA", "KK", "", 1000, 11).unwrap();
    while let Some(d) = sim.next_deal().unwrap() {
        sim.record(toy_score(&d.hero_cards()), toy_score(&d.villain_cards()));
    }
    assert!(sim.is_done());
    let t = sim.result();
    assert_eq!(t.hero_wins + t.villain_wins + t.ties, 1000);
    assert!(sim.next_deal().unwrap().is_none());
}

#[test]
fn fixed_seed_runs_repeat() {
    let run = |seed: u64| {
        let mut sim = start_query("QQ+,AK", "22+", "Td9d", 300, seed);
        assert!(sim.is_err());
        sim = start_query("QQ+,AK", "22+", "Td9d8c", 300, seed);
        let mut sim = sim.unwrap();
        let mut seen = Vec::new();
        while let Some(d) = sim.next_deal().unwrap() {
            seen.push((d.hero, d.villain, d.board.clone()));
            sim.record(toy_score(&d.hero_cards()), toy_score(&d.villain_cards()));
        }
        (seen, sim.result())
    };
    assert_eq!(run(77), run(77));
    assert_ne!(run(77).0, run(78).0);
}

#[test]
fn river_board_is_left_as_given() {
    let mut sim = start_query("AA", "KK", "2s3h4d5c9s", 50, 3).unwrap();
    let board = sim.board.clone();
    while let Some(d) = sim.next_deal().unwrap() {
        assert_eq!(d.board, board);
        sim.record(1, 1);
    }
    assert_eq!(sim.result().ties, 50);
}

#[test]
fn pinned_identical_ranges_deadlock() {
    let mut sim = start_query("AsKs", "AsKs", "", 10, 1).unwrap();
    assert_eq!(sim.next_deal().unwrap_err(), EquityError::DeadlockedSampling);
    let mut on_board = start_query("AsKs", "QQ", "As7d2c", 10, 1).unwrap();
    assert_eq!(on_board.next_deal().unwrap_err(), EquityError::DeadlockedSampling);
}

#[test]
fn query_errors_in_order() {
    assert_eq!(start_query("AXs", "KK", "", 10, 1).unwrap_err(), EquityError::MalformedRange);
    assert_eq!(start_query("AA", "", "", 10, 1).unwrap_err(), EquityError::EmptyRange);
    assert_eq!(start_query("AA", "KK", "AsKs", 10, 1).unwrap_err(), EquityError::InvalidBoardSize);
    assert_eq!(start_query("AA", "KK", "", 0, 1).unwrap_err(), EquityError::InvalidTrialCount);
    assert_eq!(start_query("AA", "KK", "2s2s3c", 10, 1).unwrap_err(), EquityError::DuplicateCard);
}

#[test]
fn simulation_new_checks_board() {
    let h = parse_range("AA").unwrap();
    let v = parse_range("KK").unwrap();
    assert_eq!(
        Simulation::new(h.clone(), v.clone(), vec![1, 2, 60], 5, 1, RETRY_BUDGET).unwrap_err(),
        EquityError::MalformedBoard
    );
    assert!(Simulation::new(h, v, vec![1, 2, 3], 5, 1, RETRY_BUDGET).is_ok());
}

#[test]
fn single_deal_from_pinned_ranges() {
    let h = parse_range("AsAh").unwrap();
    let v = parse_range("KsKh").unwrap();
    let mut rng = Rng64::new(4);
    let d = deal(&h, &v, &vec![], 10, &mut rng).unwrap();
    assert_eq!((d.hero.first, d.hero.second), (48, 49));
    assert_eq!((d.villain.first, d.villain.second), (44, 45));
    assert_eq!(d.board.len(), 5);
    assert!(all_distinct(&d));
}
