//! The deck: fifty-two distinct cards in an order that chance decides,
//! handed out one at a time from the top.

use crate::card::{Card, Rank, Suit};
use rand::seq::SliceRandom;
use rand::thread_rng;
use vstd::prelude::*;

verus! {

/// The fifty-two cards in their factory order: suit by suit from clubs to
/// spades, and within a suit from the deuce up to the ace.
pub open spec fn standard_deck() -> Seq<Card> {
    Seq::new(
        52,
        |i: int| Card { rank: Rank::spec_from_value(i % 13 + 2), suit: Suit::spec_from_index(i / 13) },
    )
}

/// Where a card lies in the factory order.
pub open spec fn standard_position(c: Card) -> int {
    c.suit.spec_index() * 13 + (c.rank.spec_value() - 2)
}

/// `s` holds exactly the cards of a full deck, each of them once, in any order.
pub open spec fn is_full_deck(s: Seq<Card>) -> bool {
    s.to_multiset() == standard_deck().to_multiset()
}

/// Every card there is lies in the factory order, at its own position and
/// nowhere else.
pub proof fn lemma_standard_deck_complete(c: Card)
    ensures
        0 <= standard_position(c) < 52,
        standard_deck()[standard_position(c)] == c,
        forall|i: int| 0 <= i < 52 && standard_deck()[i] == c ==> i == standard_position(c),
{
    let p = standard_position(c);
    assert(p % 13 == c.rank.spec_value() - 2 && p / 13 == c.suit.spec_index()) by {
        c.rank.lemma_value_round_trip();
    }
    assert forall|i: int| 0 <= i < 52 && standard_deck()[i] == c implies i == p by {
        assert(Rank::spec_from_value(i % 13 + 2).spec_value() == i % 13 + 2);
        assert(Suit::spec_from_index(i / 13).spec_index() == i / 13);
    }
}

/// A full deck has fifty-two cards, holds every card, and holds none twice.
pub proof fn lemma_full_deck(s: Seq<Card>)
    requires
        is_full_deck(s),
    ensures
        s.len() == 52,
        s.no_duplicates(),
        forall|c: Card| s.contains(c),
{
    broadcast use vstd::seq_lib::group_to_multiset_ensures;

    let std = standard_deck();
    assert(std.no_duplicates()) by {
        assert forall|i: int, j: int| 0 <= i < 52 && 0 <= j < 52 && i != j implies std[i] != std[j] by {
            lemma_standard_deck_complete(std[i]);
        }
    }
    assert(s.len() == 52) by {
        s.to_multiset_ensures();
        std.to_multiset_ensures();
    }
    assert forall|c: Card| s.contains(c) by {
        lemma_standard_deck_complete(c);
        assert(std[standard_position(c)] == c);
        assert(std.contains(c));
        vstd::seq_lib::to_multiset_contains(std, c);
        vstd::seq_lib::to_multiset_contains(s, c);
    }
    assert(s.no_duplicates()) by {
        std.lemma_multiset_has_no_duplicates();
        assert forall|c: Card| s.to_multiset().contains(c) implies s.to_multiset().count(c)
            == 1 by {
            assert(std.to_multiset().contains(c));
        }
        s.lemma_multiset_has_no_duplicates_conv();
    }
}

/// A deck of cards. The last card of the view is the top of the deck.
#[derive(Debug, Clone)]
pub struct Deck {
    cards: Vec<Card>,
}

impl View for Deck {
    type V = Seq<Card>;

    closed spec fn view(&self) -> Seq<Card> {
        self.cards@
    }
}

/// Calls `shuffle` of `rand::seq::SliceRandom` on the cards, with the
/// generator that `rand::thread_rng` hands out. The shuffle only swaps
/// elements of the slice, so the cards after it are the cards before it in
/// some order; which order is left to chance, and nothing is claimed of it.
#[verifier::external_body]
fn shuffle_cards(cards: &mut Vec<Card>)
    ensures
        final(cards)@.to_multiset() == old(cards)@.to_multiset(),
{
    cards.shuffle(&mut thread_rng());
}

/// The suit with the number `i`.
fn suit_at(i: u8) -> (s: Suit)
    requires
        i < 4,
    ensures
        s == Suit::spec_from_index(i as int),
{
    if i == 0 {
        Suit::Clubs
    } else if i == 1 {
        Suit::Diamonds
    } else if i == 2 {
        Suit::Hearts
    } else {
        Suit::Spades
    }
}

/// The fifty-two cards in their factory order.
fn ordered_cards() -> (cards: Vec<Card>)
    ensures
        cards@ == standard_deck(),
{
    let mut cards: Vec<Card> = Vec::new();
    let mut i: u8 = 0;
    while i < 52
        invariant
            i <= 52,
            cards@.len() == i,
            forall|k: int| 0 <= k < i ==> cards@[k] == standard_deck()[k],
        decreases 52 - i,
    {
        let rank = match Rank::from_value(i % 13 + 2) {
            Some(r) => r,
            None => Rank::Two,
        };
        cards.push(Card { rank, suit: suit_at(i / 13) });
        i += 1;
    }
    assert(cards@ =~= standard_deck());
    cards
}

impl Deck {
    /// A full deck in an order left to chance.
    pub fn new_shuffled() -> (deck: Deck)
        ensures
            is_full_deck(deck@),
            deck@.len() == 52,
    {
        let mut cards = ordered_cards();
        shuffle_cards(&mut cards);
        proof {
            lemma_full_deck(cards@);
        }
        Deck { cards }
    }

    /// A deck that holds the given cards, the last of them on top.
    pub fn from_cards(cards: Vec<Card>) -> (deck: Deck)
        ensures
            deck@ == cards@,
    {
        Deck { cards }
    }

    /// How many cards are left.
    pub fn len(&self) -> (n: usize)
        ensures
            n == self@.len(),
    {
        self.cards.len()
    }

    /// Takes the top card off the deck. An empty deck gives nothing and
    /// stays empty.
    pub fn draw(&mut self) -> (card: Option<Card>)
        ensures
            old(self)@.len() == 0 ==> card is None && final(self)@ == old(self)@,
            old(self)@.len() > 0 ==> card == Some(old(self)@.last()) && final(self)@
                == old(self)@.drop_last(),
    {
        self.cards.pop()
    }
}

} // verus!
