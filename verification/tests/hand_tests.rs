use poker_engine::card::{Card, Rank, Suit};
use poker_engine::hand::{evaluate_five, evaluate_hand, straight_high_card, EvaluatedHand, HandRank};
use std::cmp::Ordering;

fn card(rank: Rank, suit: Suit) -> Card {
    Card { rank, suit }
}

fn ranks(hand: &EvaluatedHand) -> Vec<Rank> {
    hand.cards.iter().map(|c| c.rank).collect()
}

#[test]
fn test_high_card() {
    let cards = vec![
        Card { rank: Rank::Ace, suit: Suit::Spades },
        Card { rank: Rank::Seven, suit: Suit::Hearts },
        Card { rank: Rank::Four, suit: Suit::Diamonds },
        Card { rank: Rank::Jack, suit: Suit::Clubs },
        Card { rank: Rank::Ten, suit: Suit::Spades },
        Card { rank: Rank::Nine, suit: Suit::Hearts },
        Card { rank: Rank::Three, suit: Suit::Diamonds },
    ];
    let hand = evaluate_hand(&cards);
    assert_eq!(hand.rank, HandRank::HighCard);
    assert_eq!(hand.cards[0].rank, Rank::Ace);
}

#[test]
fn high_card_keeps_the_five_highest() {
    let cards = vec![
        card(Rank::Ace, Suit::Spades),
        card(Rank::Seven, Suit::Hearts),
        card(Rank::Four, Suit::Diamonds),
        card(Rank::Jack, Suit::Clubs),
        card(Rank::Ten, Suit::Spades),
        card(Rank::Nine, Suit::Hearts),
        card(Rank::Three, Suit::Diamonds),
    ];
    let hand = evaluate_hand(&cards);
    assert_eq!(ranks(&hand), vec![Rank::Ace, Rank::Jack, Rank::Ten, Rank::Nine, Rank::Seven]);
}

#[test]
fn royal_flush_is_recognized() {
    let cards = vec![
        card(Rank::Ten, Suit::Hearts),
        card(Rank::Jack, Suit::Hearts),
        card(Rank::Queen, Suit::Hearts),
        card(Rank::King, Suit::Hearts),
        card(Rank::Ace, Suit::Hearts),
    ];
    let hand = evaluate_five(&cards);
    assert_eq!(hand.rank, HandRank::RoyalFlush);
    assert_eq!(ranks(&hand), vec![Rank::Ace, Rank::King, Rank::Queen, Rank::Jack, Rank::Ten]);
}

#[test]
fn straight_flush_below_the_ace() {
    let cards = vec![
        card(Rank::King, Suit::Clubs),
        card(Rank::Nine, Suit::Clubs),
        card(Rank::Jack, Suit::Clubs),
        card(Rank::Ten, Suit::Clubs),
        card(Rank::Queen, Suit::Clubs),
    ];
    let hand = evaluate_five(&cards);
    assert_eq!(hand.rank, HandRank::StraightFlush);
    assert_eq!(ranks(&hand), vec![Rank::King, Rank::Queen, Rank::Jack, Rank::Ten, Rank::Nine]);
}

#[test]
fn every_run_of_one_suit_is_a_straight_flush() {
    let all = [
        Rank::Two,
        Rank::Three,
        Rank::Four,
        Rank::Five,
        Rank::Six,
        Rank::Seven,
        Rank::Eight,
        Rank::Nine,
        Rank::Ten,
        Rank::Jack,
        Rank::Queen,
        Rank::King,
        Rank::Ace,
    ];
    for low in 0..9 {
        let cards: Vec<Card> = (low..low + 5).map(|i| card(all[i], Suit::Diamonds)).collect();
        let hand = evaluate_five(&cards);
        if all[low + 4] == Rank::Ace {
            assert_eq!(hand.rank, HandRank::RoyalFlush);
        } else {
            assert_eq!(hand.rank, HandRank::StraightFlush);
        }
        assert_eq!(hand.cards[0].rank, all[low + 4]);
    }
}

#[test]
fn wheel_is_a_straight_with_the_five_on_top() {
    let wheel = vec![
        card(Rank::Ace, Suit::Spades),
        card(Rank::Two, Suit::Hearts),
        card(Rank::Three, Suit::Diamonds),
        card(Rank::Four, Suit::Clubs),
        card(Rank::Five, Suit::Spades),
    ];
    let six_high = vec![
        card(Rank::Two, Suit::Spades),
        card(Rank::Three, Suit::Hearts),
        card(Rank::Four, Suit::Diamonds),
        card(Rank::Five, Suit::Clubs),
        card(Rank::Six, Suit::Spades),
    ];
    assert_eq!(straight_high_card(&wheel), Some(Rank::Five));
    assert_eq!(straight_high_card(&six_high), Some(Rank::Six));
    let a = evaluate_five(&wheel);
    let b = evaluate_five(&six_high);
    assert_eq!(a.rank, HandRank::Straight);
    assert_eq!(b.rank, HandRank::Straight);
    assert_eq!(ranks(&a), vec![Rank::Five, Rank::Four, Rank::Three, Rank::Two, Rank::Ace]);
    assert_eq!(ranks(&b), vec![Rank::Six, Rank::Five, Rank::Four, Rank::Three, Rank::Two]);
    assert_eq!(a.cmp(&b), Ordering::Less);
    assert!(a < b);
    assert!(b > a);
}

#[test]
fn wheel_of_one_suit_is_a_straight_flush() {
    let cards = vec![
        card(Rank::Five, Suit::Hearts),
        card(Rank::Ace, Suit::Hearts),
        card(Rank::Three, Suit::Hearts),
        card(Rank::Two, Suit::Hearts),
        card(Rank::Four, Suit::Hearts),
    ];
    let hand = evaluate_five(&cards);
    assert_eq!(hand.rank, HandRank::StraightFlush);
    assert_eq!(hand.cards[0].rank, Rank::Five);
    assert_eq!(hand.cards[4].rank, Rank::Ace);
}

#[test]
fn no_straight_without_five_in_a_row() {
    let cards = vec![
        card(Rank::Ace, Suit::Spades),
        card(Rank::King, Suit::Hearts),
        card(Rank::Queen, Suit::Diamonds),
        card(Rank::Jack, Suit::Clubs),
        card(Rank::Nine, Suit::Spades),
    ];
    assert_eq!(straight_high_card(&cards), None);
    let around = vec![
        card(Rank::King, Suit::Spades),
        card(Rank::Ace, Suit::Hearts),
        card(Rank::Two, Suit::Diamonds),
        card(Rank::Three, Suit::Clubs),
        card(Rank::Four, Suit::Spades),
    ];
    assert_eq!(straight_high_card(&around), None);
    assert_eq!(evaluate_five(&around).rank, HandRank::HighCard);
}

#[test]
fn straight_high_card_takes_the_highest_run() {
    let cards = vec![
        card(Rank::Four, Suit::Spades),
        card(Rank::Five, Suit::Hearts),
        card(Rank::Six, Suit::Diamonds),
        card(Rank::Seven, Suit::Clubs),
        card(Rank::Eight, Suit::Spades),
        card(Rank::Nine, Suit::Spades),
        card(Rank::Nine, Suit::Hearts),
    ];
    assert_eq!(straight_high_card(&cards), Some(Rank::Nine));
    assert_eq!(straight_high_card(&cards[..2]), None);
}

#[test]
fn four_of_a_kind_come_before_the_kicker() {
    let cards = vec![
        card(Rank::King, Suit::Spades),
        card(Rank::Seven, Suit::Hearts),
        card(Rank::Seven, Suit::Diamonds),
        card(Rank::Seven, Suit::Clubs),
        card(Rank::Seven, Suit::Spades),
    ];
    let hand = evaluate_five(&cards);
    assert_eq!(hand.rank, HandRank::FourOfAKind);
    assert_eq!(ranks(&hand), vec![Rank::Seven, Rank::Seven, Rank::Seven, Rank::Seven, Rank::King]);
    assert_eq!(hand.cards[0].suit, Suit::Hearts);
    assert_eq!(hand.cards[3].suit, Suit::Spades);
}

#[test]
fn full_house_has_the_three_before_the_pair() {
    let cards = vec![
        card(Rank::Ace, Suit::Spades),
        card(Rank::Three, Suit::Hearts),
        card(Rank::Ace, Suit::Diamonds),
        card(Rank::Three, Suit::Clubs),
        card(Rank::Three, Suit::Spades),
    ];
    let hand = evaluate_five(&cards);
    assert_eq!(hand.rank, HandRank::FullHouse);
    assert_eq!(ranks(&hand), vec![Rank::Three, Rank::Three, Rank::Three, Rank::Ace, Rank::Ace]);
}

#[test]
fn flush_beats_straight_and_loses_to_full_house() {
    let flush = evaluate_five(&[
        card(Rank::Two, Suit::Clubs),
        card(Rank::Nine, Suit::Clubs),
        card(Rank::Four, Suit::Clubs),
        card(Rank::King, Suit::Clubs),
        card(Rank::Seven, Suit::Clubs),
    ]);
    let straight = evaluate_five(&[
        card(Rank::Ten, Suit::Clubs),
        card(Rank::Jack, Suit::Hearts),
        card(Rank::Queen, Suit::Clubs),
        card(Rank::King, Suit::Clubs),
        card(Rank::Ace, Suit::Diamonds),
    ]);
    let full = evaluate_five(&[
        card(Rank::Two, Suit::Clubs),
        card(Rank::Two, Suit::Hearts),
        card(Rank::Two, Suit::Spades),
        card(Rank::Three, Suit::Clubs),
        card(Rank::Three, Suit::Diamonds),
    ]);
    assert_eq!(flush.rank, HandRank::Flush);
    assert_eq!(ranks(&flush), vec![Rank::King, Rank::Nine, Rank::Seven, Rank::Four, Rank::Two]);
    assert_eq!(straight.rank, HandRank::Straight);
    assert_eq!(full.rank, HandRank::FullHouse);
    assert!(flush > straight);
    assert!(flush < full);
    assert_eq!(full.cmp(&straight), Ordering::Greater);
}

#[test]
fn three_of_a_kind_then_kickers_in_falling_rank() {
    let hand = evaluate_five(&[
        card(Rank::Four, Suit::Clubs),
        card(Rank::Nine, Suit::Hearts),
        card(Rank::Queen, Suit::Spades),
        card(Rank::Nine, Suit::Clubs),
        card(Rank::Nine, Suit::Diamonds),
    ]);
    assert_eq!(hand.rank, HandRank::ThreeOfAKind);
    assert_eq!(ranks(&hand), vec![Rank::Nine, Rank::Nine, Rank::Nine, Rank::Queen, Rank::Four]);
}

#[test]
fn two_pair_has_the_higher_pair_first() {
    let hand = evaluate_five(&[
        card(Rank::Four, Suit::Clubs),
        card(Rank::Ace, Suit::Hearts),
        card(Rank::Jack, Suit::Spades),
        card(Rank::Four, Suit::Hearts),
        card(Rank::Jack, Suit::Diamonds),
    ]);
    assert_eq!(hand.rank, HandRank::TwoPair);
    assert_eq!(ranks(&hand), vec![Rank::Jack, Rank::Jack, Rank::Four, Rank::Four, Rank::Ace]);
}

#[test]
fn one_pair_then_three_kickers() {
    let hand = evaluate_five(&[
        card(Rank::Four, Suit::Clubs),
        card(Rank::Ace, Suit::Hearts),
        card(Rank::Jack, Suit::Spades),
        card(Rank::Four, Suit::Hearts),
        card(Rank::Six, Suit::Diamonds),
    ]);
    assert_eq!(hand.rank, HandRank::OnePair);
    assert_eq!(ranks(&hand), vec![Rank::Four, Rank::Four, Rank::Ace, Rank::Jack, Rank::Six]);
}

#[test]
fn category_decides_before_kickers() {
    let high = evaluate_five(&[
        card(Rank::Ace, Suit::Clubs),
        card(Rank::King, Suit::Hearts),
        card(Rank::Queen, Suit::Spades),
        card(Rank::Jack, Suit::Hearts),
        card(Rank::Nine, Suit::Diamonds),
    ]);
    let pair = evaluate_five(&[
        card(Rank::Two, Suit::Clubs),
        card(Rank::Two, Suit::Hearts),
        card(Rank::Three, Suit::Spades),
        card(Rank::Four, Suit::Hearts),
        card(Rank::Five, Suit::Diamonds),
    ]);
    assert_eq!(high.rank, HandRank::HighCard);
    assert_eq!(pair.rank, HandRank::OnePair);
    assert_eq!(high.cmp(&pair), Ordering::Less);
    assert_eq!(pair.cmp(&high), Ordering::Greater);
    assert_eq!(high.order(&pair), -1);
    assert_eq!(pair.order(&high), 1);
    assert_eq!(high.partial_cmp(&pair), Some(Ordering::Less));
}

#[test]
fn kickers_break_ties_within_a_category() {
    let better = evaluate_five(&[
        card(Rank::Eight, Suit::Clubs),
        card(Rank::Eight, Suit::Hearts),
        card(Rank::King, Suit::Spades),
        card(Rank::Four, Suit::Hearts),
        card(Rank::Five, Suit::Diamonds),
    ]);
    let worse = evaluate_five(&[
        card(Rank::Eight, Suit::Spades),
        card(Rank::Eight, Suit::Diamonds),
        card(Rank::King, Suit::Hearts),
        card(Rank::Four, Suit::Clubs),
        card(Rank::Three, Suit::Diamonds),
    ]);
    assert!(better > worse);
    assert_eq!(worse.order(&better), -1);
}

#[test]
fn hands_of_equal_ranks_tie_whatever_the_suits() {
    let a = evaluate_five(&[
        card(Rank::Eight, Suit::Clubs),
        card(Rank::Eight, Suit::Hearts),
        card(Rank::King, Suit::Spades),
        card(Rank::Four, Suit::Hearts),
        card(Rank::Five, Suit::Diamonds),
    ]);
    let b = evaluate_five(&[
        card(Rank::Eight, Suit::Spades),
        card(Rank::Eight, Suit::Diamonds),
        card(Rank::King, Suit::Hearts),
        card(Rank::Four, Suit::Clubs),
        card(Rank::Five, Suit::Clubs),
    ]);
    assert_eq!(a.cmp(&b), Ordering::Equal);
    assert_eq!(a.order(&b), 0);
    assert!(a == b);
    assert!(a.cards != b.cards);
}

#[test]
fn best_hand_of_seven_finds_the_flush() {
    let cards = vec![
        card(Rank::Two, Suit::Hearts),
        card(Rank::Ace, Suit::Spades),
        card(Rank::Nine, Suit::Hearts),
        card(Rank::Ace, Suit::Clubs),
        card(Rank::Four, Suit::Hearts),
        card(Rank::Jack, Suit::Hearts),
        card(Rank::Six, Suit::Hearts),
    ];
    let hand = evaluate_hand(&cards);
    assert_eq!(hand.rank, HandRank::Flush);
    assert_eq!(ranks(&hand), vec![Rank::Jack, Rank::Nine, Rank::Six, Rank::Four, Rank::Two]);
}

#[test]
fn best_hand_of_six_and_of_five() {
    let six = vec![
        card(Rank::Two, Suit::Hearts),
        card(Rank::Two, Suit::Spades),
        card(Rank::Nine, Suit::Hearts),
        card(Rank::Nine, Suit::Clubs),
        card(Rank::Four, Suit::Hearts),
        card(Rank::Four, Suit::Diamonds),
    ];
    let hand = evaluate_hand(&six);
    assert_eq!(hand.rank, HandRank::TwoPair);
    assert_eq!(ranks(&hand), vec![Rank::Nine, Rank::Nine, Rank::Four, Rank::Four, Rank::Two]);
    let five = evaluate_hand(&six[..5]);
    assert_eq!(five.rank, HandRank::TwoPair);
    assert_eq!(ranks(&five), vec![Rank::Nine, Rank::Nine, Rank::Two, Rank::Two, Rank::Four]);
}

#[test]
fn first_of_equally_good_choices_is_kept() {
    let cards = vec![
        card(Rank::Ace, Suit::Hearts),
        card(Rank::King, Suit::Spades),
        card(Rank::Queen, Suit::Hearts),
        card(Rank::Jack, Suit::Clubs),
        card(Rank::Nine, Suit::Hearts),
        card(Rank::Nine, Suit::Diamonds),
        card(Rank::Two, Suit::Clubs),
    ];
    let hand = evaluate_hand(&cards);
    assert_eq!(hand.rank, HandRank::OnePair);
    assert_eq!(ranks(&hand), vec![Rank::Nine, Rank::Nine, Rank::Ace, Rank::King, Rank::Queen]);
    assert_eq!(hand.cards[0].suit, Suit::Hearts);
    assert_eq!(hand.cards[1].suit, Suit::Diamonds);
    let plain = vec![
        card(Rank::Ace, Suit::Hearts),
        card(Rank::King, Suit::Spades),
        card(Rank::Queen, Suit::Hearts),
        card(Rank::Jack, Suit::Clubs),
        card(Rank::Nine, Suit::Hearts),
        card(Rank::Nine, Suit::Diamonds),
    ];
    let kept = evaluate_hand(&[plain[0], plain[1], plain[2], plain[4], plain[5], plain[3]]);
    assert_eq!(kept.rank, HandRank::OnePair);
}

#[test]
fn rank_values_run_from_two_to_fourteen() {
    assert_eq!(Rank::Two.value(), 2);
    assert_eq!(Rank::Ten.value(), 10);
    assert_eq!(Rank::Ace.value(), 14);
    assert_eq!(Rank::from_value(14), Some(Rank::Ace));
    assert_eq!(Rank::from_value(11), Some(Rank::Jack));
    assert_eq!(Rank::from_value(1), None);
    assert_eq!(Rank::from_value(15), None);
    assert!(Rank::Two < Rank::Three);
    assert!(Rank::King < Rank::Ace);
    assert_eq!(HandRank::HighCard.strength(), 0);
    assert_eq!(HandRank::RoyalFlush.strength(), 9);
    assert!(HandRank::Flush > HandRank::Straight);
}
