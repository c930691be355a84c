use poker_engine::card::{Card, Rank, Suit};
use poker_engine::deck::Deck;
use std::collections::HashSet;

fn factory_order() -> Vec<Card> {
    let suits = [Suit::Clubs, Suit::Diamonds, Suit::Hearts, Suit::Spades];
    let ranks = [
        Rank::Two,
        Rank::Three,
        Rank::Four,
        Rank::Five,
        Rank::Six,
        Rank::Seven,
        Rank::Eight,
        Rank::Nine,
        Rank::Ten,
        Rank::Jack,
        Rank::Queen,
        Rank::King,
        Rank::Ace,
    ];
    let mut cards = Vec::new();
    for &suit in &suits {
        for &rank in &ranks {
            cards.push(Card { rank, suit });
        }
    }
    cards
}

fn draw_all(deck: &mut Deck) -> Vec<Card> {
    let mut drawn = Vec::new();
    while let Some(card) = deck.draw() {
        drawn.push(card);
    }
    drawn
}

#[test]
fn shuffled_deck_holds_every_card_once() {
    let mut deck = Deck::new_shuffled();
    assert_eq!(deck.len(), 52);
    let drawn = draw_all(&mut deck);
    assert_eq!(drawn.len(), 52);
    let distinct: HashSet<Card> = drawn.iter().cloned().collect();
    assert_eq!(distinct.len(), 52);
    for card in factory_order() {
        assert!(distinct.contains(&card));
    }
    assert_eq!(deck.len(), 0);
    assert_eq!(deck.draw(), None);
    assert_eq!(deck.draw(), None);
}

#[test]
fn shuffled_deck_is_not_in_factory_order() {
    let mut first = Deck::new_shuffled();
    let mut second = Deck::new_shuffled();
    let mut a = draw_all(&mut first);
    let b = draw_all(&mut second);
    a.reverse();
    assert_ne!(a, factory_order());
    let mut b_bottom_up = b.clone();
    b_bottom_up.reverse();
    assert_ne!(a, b_bottom_up);
}

#[test]
fn draw_takes_the_last_card_first() {
    let cards = vec![
        Card { rank: Rank::Two, suit: Suit::Clubs },
        Card { rank: Rank::Ace, suit: Suit::Spades },
        Card { rank: Rank::Nine, suit: Suit::Hearts },
    ];
    let mut deck = Deck::from_cards(cards);
    assert_eq!(deck.len(), 3);
    assert_eq!(deck.draw(), Some(Card { rank: Rank::Nine, suit: Suit::Hearts }));
    assert_eq!(deck.draw(), Some(Card { rank: Rank::Ace, suit: Suit::Spades }));
    assert_eq!(deck.len(), 1);
    assert_eq!(deck.draw(), Some(Card { rank: Rank::Two, suit: Suit::Clubs }));
    assert_eq!(deck.draw(), None);
    assert_eq!(deck.len(), 0);
}

#[test]
fn empty_deck_gives_nothing() {
    let mut deck = Deck::from_cards(Vec::new());
    assert_eq!(deck.draw(), None);
    assert_eq!(deck.len(), 0);
}
