//! What a poker hand is worth, stated over sequences of cards.
//!
//! A five-card hand has a category and a tie-break sequence: its five cards
//! with the combination first and the kickers after it. Two hands are ordered
//! by category first and by the ranks of their tie-break sequences after
//! that. Suits decide flushes and nothing else.

use crate::card::{Card, Rank};
use crate::hand::HandRank;
use vstd::prelude::*;

verus! {

/// A categorized hand as a mathematical value.
pub struct HandView {
    pub rank: HandRank,
    pub cards: Seq<Card>,
}

/// The cards of `s` whose rank counts for `v`, in the order they have in `s`.
pub open spec fn of_rank(s: Seq<Card>, v: int) -> Seq<Card>
    decreases s.len(),
{
    if s.len() == 0 {
        Seq::empty()
    } else if s.last().rank.spec_value() == v {
        of_rank(s.drop_last(), v).push(s.last())
    } else {
        of_rank(s.drop_last(), v)
    }
}

/// How many cards of `s` have the rank that counts for `v`.
pub open spec fn count_rank(s: Seq<Card>, v: int) -> nat {
    of_rank(s, v).len()
}

/// All cards of `s` share one suit.
pub open spec fn is_flush(s: Seq<Card>) -> bool {
    forall|i: int| 0 <= i < s.len() ==> (#[trigger] s[i]).suit == s[0].suit
}

/// The five ranks from `h - 4` up to `h` all occur in `s`.
pub open spec fn run_ends_at(s: Seq<Card>, h: int) -> bool {
    &&& count_rank(s, h) > 0
    &&& count_rank(s, h - 1) > 0
    &&& count_rank(s, h - 2) > 0
    &&& count_rank(s, h - 3) > 0
    &&& count_rank(s, h - 4) > 0
}

/// The greatest `k <= h` at which a run of five ranks ends, if there is one.
/// No run ends below the six, the top of deuce to six.
pub open spec fn highest_run(s: Seq<Card>, h: int) -> Option<int>
    decreases h,
{
    if h < 6 {
        None
    } else if run_ends_at(s, h) {
        Some(h)
    } else {
        highest_run(s, h - 1)
    }
}

/// Ace, deuce, three, four and five all occur in `s`.
pub open spec fn is_wheel(s: Seq<Card>) -> bool {
    &&& count_rank(s, 14) > 0
    &&& count_rank(s, 2) > 0
    &&& count_rank(s, 3) > 0
    &&& count_rank(s, 4) > 0
    &&& count_rank(s, 5) > 0
}

/// The top rank of the best straight among the ranks of `s`: the top of the
/// highest run of five ranks, or the five where only the wheel is there.
pub open spec fn straight_high(s: Seq<Card>) -> Option<Rank> {
    match highest_run(s, 14) {
        Some(h) => Some(Rank::spec_from_value(h)),
        None => if is_wheel(s) {
            Some(Rank::Five)
        } else {
            None
        },
    }
}

/// Some rank occurs exactly `m` times in `s`.
pub open spec fn has_multiple(s: Seq<Card>, m: int) -> bool {
    exists|v: int| 2 <= v <= 14 && #[trigger] count_rank(s, v) == m
}

/// Two different ranks occur exactly twice each in `s`.
pub open spec fn has_two_pairs(s: Seq<Card>) -> bool {
    exists|v: int, w: int|
        2 <= v < w <= 14 && #[trigger] count_rank(s, v) == 2 && #[trigger] count_rank(s, w) == 2
}

/// The category of a five-card hand.
pub open spec fn category(s: Seq<Card>) -> HandRank {
    if is_flush(s) && straight_high(s) is Some {
        if straight_high(s) == Some(Rank::Ace) {
            HandRank::RoyalFlush
        } else {
            HandRank::StraightFlush
        }
    } else if has_multiple(s, 4) {
        HandRank::FourOfAKind
    } else if has_multiple(s, 3) && has_multiple(s, 2) {
        HandRank::FullHouse
    } else if is_flush(s) {
        HandRank::Flush
    } else if straight_high(s) is Some {
        HandRank::Straight
    } else if has_multiple(s, 3) {
        HandRank::ThreeOfAKind
    } else if has_two_pairs(s) {
        HandRank::TwoPair
    } else if has_multiple(s, 2) {
        HandRank::OnePair
    } else {
        HandRank::HighCard
    }
}

/// The cards of rank `v` where that rank occurs exactly `m` times in `s`,
/// and nothing otherwise.
pub open spec fn bucket(s: Seq<Card>, m: int, v: int) -> Seq<Card> {
    if count_rank(s, v) == m {
        of_rank(s, v)
    } else {
        Seq::empty()
    }
}

/// The cards of the ranks above `v` that occur exactly `m` times in `s`,
/// the highest rank first.
pub open spec fn buckets_above(s: Seq<Card>, m: int, v: int) -> Seq<Card>
    decreases 14 - v,
{
    if v >= 14 {
        Seq::empty()
    } else {
        buckets_above(s, m, v + 1) + bucket(s, m, v + 1)
    }
}

/// The cards of the ranks that occur more than `m` times in `s`: the ranks
/// that occur most often first, and among ranks that occur equally often the
/// highest first.
pub open spec fn groups_above(s: Seq<Card>, m: int) -> Seq<Card>
    decreases s.len() - m,
{
    if m >= s.len() {
        Seq::empty()
    } else {
        groups_above(s, m + 1) + buckets_above(s, m + 1, 1)
    }
}

/// The cards of `s` in tie-break order: by how often their rank occurs in
/// `s`, most often first; then by rank, highest first; cards of one rank in
/// the order they have in `s`. So four of a kind come before their kicker,
/// three of a kind before the pair or the kickers, a pair before the
/// kickers, and cards that form no group stand in falling rank.
pub open spec fn packed(s: Seq<Card>) -> Seq<Card> {
    groups_above(s, 0)
}

/// The first card moved behind the others.
pub open spec fn first_to_back(s: Seq<Card>) -> Seq<Card> {
    s.drop_first().push(s.first())
}

/// The tie-break sequence of a five-card hand. In the wheel the ace counts
/// low, so it stands last: five, four, three, deuce, ace.
pub open spec fn tie_break(s: Seq<Card>) -> Seq<Card> {
    if straight_high(s) == Some(Rank::Five) {
        first_to_back(packed(s))
    } else {
        packed(s)
    }
}

/// What five cards are worth: their category and their tie-break sequence.
pub open spec fn five_card_hand(s: Seq<Card>) -> HandView {
    HandView { rank: category(s), cards: tie_break(s) }
}

/// Compares two card sequences by rank from position `i` on, the first
/// difference deciding: negative where `a` is less, positive where it is
/// greater, zero where the ranks agree throughout. A sequence that ends
/// first is the lesser one.
pub open spec fn rank_order_from(a: Seq<Card>, b: Seq<Card>, i: int) -> int
    decreases a.len() - i,
{
    if i < 0 {
        0
    } else if i >= a.len() && i >= b.len() {
        0
    } else if i >= a.len() {
        -1
    } else if i >= b.len() {
        1
    } else if a[i].rank.spec_value() < b[i].rank.spec_value() {
        -1
    } else if a[i].rank.spec_value() > b[i].rank.spec_value() {
        1
    } else {
        rank_order_from(a, b, i + 1)
    }
}

/// Compares two card sequences by rank, position by position.
pub open spec fn rank_order(a: Seq<Card>, b: Seq<Card>) -> int {
    rank_order_from(a, b, 0)
}

/// Compares two hands: by category, and within a category by the ranks of
/// the tie-break sequences. Negative where `a` loses to `b`, positive where
/// it beats `b`, zero where the two tie.
pub open spec fn hand_order(a: HandView, b: HandView) -> int {
    if a.rank.spec_strength() < b.rank.spec_strength() {
        -1
    } else if a.rank.spec_strength() > b.rank.spec_strength() {
        1
    } else {
        rank_order(a.cards, b.cards)
    }
}

/// Five places in a sequence of `n` cards, in rising order.
pub open spec fn is_choice(n: int, c: (int, int, int, int, int)) -> bool {
    0 <= c.0 < c.1 < c.2 < c.3 < c.4 < n
}

/// The five cards of `s` at the places `c`.
pub open spec fn pick(s: Seq<Card>, c: (int, int, int, int, int)) -> Seq<Card> {
    seq![s[c.0], s[c.1], s[c.2], s[c.3], s[c.4]]
}

/// The choice `c` comes before the choice `d` when choices are tried in
/// dictionary order of their places.
pub open spec fn choice_before(c: (int, int, int, int, int), d: (int, int, int, int, int)) -> bool {
    ||| c.0 < d.0
    ||| c.0 == d.0 && c.1 < d.1
    ||| c.0 == d.0 && c.1 == d.1 && c.2 < d.2
    ||| c.0 == d.0 && c.1 == d.1 && c.2 == d.2 && c.3 < d.3
    ||| c.0 == d.0 && c.1 == d.1 && c.2 == d.2 && c.3 == d.3 && c.4 < d.4
}

/// `h` is the hand of the choice `c` of five cards of `s`; no other choice
/// makes a better hand, and every earlier choice makes a worse one. There is
/// exactly one such choice, so this fixes the hand.
pub open spec fn is_best_choice(s: Seq<Card>, c: (int, int, int, int, int), h: HandView) -> bool {
    &&& is_choice(s.len() as int, c)
    &&& h == five_card_hand(pick(s, c))
    &&& forall|d: (int, int, int, int, int)|
        is_choice(s.len() as int, d) ==> hand_order(five_card_hand(#[trigger] pick(s, d)), h) <= 0
    &&& forall|d: (int, int, int, int, int)|
        is_choice(s.len() as int, d) && choice_before(d, c) ==> hand_order(
            five_card_hand(#[trigger] pick(s, d)),
            h,
        ) < 0
}

/// `h` is the best hand that five cards of `s` make, and among equally good
/// choices the first.
pub open spec fn is_best_hand(s: Seq<Card>, h: HandView) -> bool {
    exists|c: (int, int, int, int, int)| is_best_choice(s, c, h)
}

/// The best hand that five cards of `s` make, and among equally good
/// choices the first. It is the one hand that `is_best_hand` admits.
pub open spec fn best_hand(s: Seq<Card>) -> HandView {
    choose|h: HandView| is_best_hand(s, h)
}

} // verus!
