//! The best-hand evaluator: from five cards or more, seven in a game of
//! Hold'em, to the best five-card hand they hold, and the order in which
//! hands beat one another.

use crate::card::{Card, Rank};
use crate::hand_laws::{
    lemma_best_hand_is_best, lemma_best_hand_is_unique, lemma_hand_keeps_cards,
    lemma_hand_order_chains, lemma_hand_order_flips, lemma_hand_order_reflexive, lemma_of_rank,
    lemma_packed_keeps_cards,
};
use crate::hand_model::{
    best_hand, bucket, buckets_above, category, choice_before, count_rank, first_to_back,
    five_card_hand, groups_above, hand_order, has_multiple, has_two_pairs, highest_run,
    is_best_choice, is_best_hand, is_choice, is_flush, of_rank, packed, pick, rank_order,
    rank_order_from, straight_high, HandView,
};
use core::cmp::Ordering;
use vstd::prelude::*;

verus! {

/// The categories of poker hands, weakest first.
#[derive(Debug, Clone, Copy, PartialEq, Eq, Structural, PartialOrd, Ord, Hash)]
pub enum HandRank {
    HighCard,
    OnePair,
    TwoPair,
    ThreeOfAKind,
    Straight,
    Flush,
    FullHouse,
    FourOfAKind,
    StraightFlush,
    RoyalFlush,
}

impl HandRank {
    /// The place of a category in the order of categories, from 0 for a
    /// high card to 9 for a royal flush.
    pub open spec fn spec_strength(self) -> int {
        match self {
            HandRank::HighCard => 0,
            HandRank::OnePair => 1,
            HandRank::TwoPair => 2,
            HandRank::ThreeOfAKind => 3,
            HandRank::Straight => 4,
            HandRank::Flush => 5,
            HandRank::FullHouse => 6,
            HandRank::FourOfAKind => 7,
            HandRank::StraightFlush => 8,
            HandRank::RoyalFlush => 9,
        }
    }

    /// The place of a category in the order of categories.
    pub fn strength(self) -> (n: u8)
        ensures
            n == self.spec_strength(),
    {
        match self {
            HandRank::HighCard => 0,
            HandRank::OnePair => 1,
            HandRank::TwoPair => 2,
            HandRank::ThreeOfAKind => 3,
            HandRank::Straight => 4,
            HandRank::Flush => 5,
            HandRank::FullHouse => 6,
            HandRank::FourOfAKind => 7,
            HandRank::StraightFlush => 8,
            HandRank::RoyalFlush => 9,
        }
    }
}

/// A categorized hand: its category and its five cards in tie-break order.
#[derive(Debug, Clone)]
pub struct EvaluatedHand {
    pub rank: HandRank,
    pub cards: Vec<Card>,
}

impl View for EvaluatedHand {
    type V = HandView;

    open spec fn view(&self) -> HandView {
        HandView { rank: self.rank, cards: self.cards@ }
    }
}

impl EvaluatedHand {
    /// Compares two hands: a negative number where `self` loses to `other`,
    /// a positive one where it beats `other`, zero where the two tie.
    pub fn order(&self, other: &EvaluatedHand) -> (o: i8)
        ensures
            o == hand_order(self@, other@),
    {
        let a = self.rank.strength();
        let b = other.rank.strength();
        if a < b {
            return -1;
        }
        if a > b {
            return 1;
        }
        let mut i: usize = 0;
        while i < self.cards.len() && i < other.cards.len()
            invariant
                i <= self.cards.len(),
                i <= other.cards.len(),
                self.rank.spec_strength() == other.rank.spec_strength(),
                rank_order(self.cards@, other.cards@) == rank_order_from(
                    self.cards@,
                    other.cards@,
                    i as int,
                ),
            decreases self.cards.len() - i,
        {
            let x = self.cards[i].rank.value();
            let y = other.cards[i].rank.value();
            if x < y {
                return -1;
            }
            if x > y {
                return 1;
            }
            i += 1;
        }
        if i < other.cards.len() {
            -1
        } else if i < self.cards.len() {
            1
        } else {
            0
        }
    }
}

/// The outcome of a comparison that a number stands for: less for a
/// negative number, greater for a positive one, equal for zero.
pub open spec fn sign_outcome(k: int) -> Ordering {
    if k < 0 {
        Ordering::Less
    } else if k > 0 {
        Ordering::Greater
    } else {
        Ordering::Equal
    }
}

impl EvaluatedHand {
    /// Compares two hands by category, then by the ranks of their cards in
    /// tie-break order. Suits play no part, so two different hands may
    /// compare equal: they tie.
    pub fn cmp(&self, other: &EvaluatedHand) -> (o: Ordering)
        ensures
            o == sign_outcome(hand_order(self@, other@)),
    {
        let k = self.order(other);
        if k < 0 {
            Ordering::Less
        } else if k > 0 {
            Ordering::Greater
        } else {
            Ordering::Equal
        }
    }
}

/// Two hands are equal where they tie: same category, and the same ranks
/// all along their tie-break sequences.
impl PartialEq for EvaluatedHand {
    fn eq(&self, other: &EvaluatedHand) -> (r: bool) {
        self.order(other) == 0
    }
}

impl vstd::std_specs::cmp::PartialEqSpecImpl for EvaluatedHand {
    open spec fn obeys_eq_spec() -> bool {
        true
    }

    open spec fn eq_spec(&self, other: &EvaluatedHand) -> bool {
        hand_order(self@, other@) == 0
    }
}

/// Hands are ordered by category, then by the ranks of their tie-break
/// sequences; every two hands compare.
impl PartialOrd for EvaluatedHand {
    fn partial_cmp(&self, other: &EvaluatedHand) -> (r: Option<Ordering>) {
        Some(self.cmp(other))
    }
}

impl vstd::std_specs::cmp::PartialOrdSpecImpl for EvaluatedHand {
    open spec fn obeys_partial_cmp_spec() -> bool {
        true
    }

    open spec fn partial_cmp_spec(&self, other: &EvaluatedHand) -> Option<Ordering> {
        Some(sign_outcome(hand_order(self@, other@)))
    }
}

/// How often each rank occurs among the cards: the entry at `v` counts the
/// cards whose rank counts for `v`.
fn rank_counts(cards: &[Card]) -> (counts: Vec<usize>)
    ensures
        counts@.len() == 15,
        forall|v: int| 0 <= v < 15 ==> counts@[v] == count_rank(cards@, v),
{
    let mut counts: Vec<usize> = Vec::new();
    while counts.len() < 15
        invariant
            counts@.len() <= 15,
            forall|v: int| 0 <= v < counts@.len() ==> counts@[v] == 0,
        decreases 15 - counts@.len(),
    {
        counts.push(0);
    }
    let mut i: usize = 0;
    while i < cards.len()
        invariant
            i <= cards@.len(),
            counts@.len() == 15,
            forall|v: int| 0 <= v < 15 ==> counts@[v] == count_rank(cards@.take(i as int), v),
        decreases cards@.len() - i,
    {
        let r = cards[i].rank.value() as usize;
        proof {
            let t = cards@.take(i as int + 1);
            assert(t.drop_last() =~= cards@.take(i as int));
            assert(t.last() == cards@[i as int]);
            lemma_of_rank(t, r as int, cards@[i as int]);
        }
        counts.set(r, counts[r] + 1);
        i += 1;
    }
    assert(cards@.take(i as int) =~= cards@);
    counts
}

/// Whether all the cards share one suit.
fn all_one_suit(cards: &[Card]) -> (flush: bool)
    ensures
        flush == is_flush(cards@),
{
    let mut i: usize = 1;
    while i < cards.len()
        invariant
            1 <= i,
            forall|k: int| 0 <= k < i && k < cards@.len() ==> (#[trigger] cards@[k]).suit
                == cards@[0].suit,
        decreases cards@.len() - i,
    {
        if cards[i].suit != cards[0].suit {
            return false;
        }
        i += 1;
    }
    true
}

/// The top rank of the best straight that the ranks of the cards hold: the
/// top of the highest run of five ranks in a row, or the five where the run
/// is the wheel (ace, deuce, three, four, five), or nothing.
pub fn straight_high_card(cards: &[Card]) -> (high: Option<Rank>)
    ensures
        high == straight_high(cards@),
{
    let counts = rank_counts(cards);
    let mut h: u8 = 14;
    while h >= 6
        invariant
            5 <= h <= 14,
            counts@.len() == 15,
            forall|v: int| 0 <= v < 15 ==> counts@[v] == count_rank(cards@, v),
            highest_run(cards@, 14) == highest_run(cards@, h as int),
        decreases h,
    {
        let k = h as usize;
        if counts[k] > 0 && counts[k - 1] > 0 && counts[k - 2] > 0 && counts[k - 3] > 0 && counts[k
            - 4] > 0 {
            return Rank::from_value(h);
        }
        h -= 1;
    }
    if counts[14] > 0 && counts[2] > 0 && counts[3] > 0 && counts[4] > 0 && counts[5] > 0 {
        Some(Rank::Five)
    } else {
        None
    }
}

/// Some rank below `b` occurs exactly `m` times in `s`.
spec fn multiple_below(s: Seq<Card>, m: int, b: int) -> bool {
    exists|v: int| 2 <= v < b && #[trigger] count_rank(s, v) == m
}

/// Two different ranks below `b` occur exactly twice each in `s`.
spec fn two_pairs_below(s: Seq<Card>, b: int) -> bool {
    exists|v: int, w: int|
        2 <= v < w < b && #[trigger] count_rank(s, v) == 2 && #[trigger] count_rank(s, w) == 2
}

/// The category of the cards, from how often each rank occurs, whether the
/// cards make a flush, and the top of their straight.
fn classify(cards: &[Card], counts: &Vec<usize>, flush: bool, high: Option<Rank>) -> (rank:
    HandRank)
    requires
        counts@.len() == 15,
        forall|v: int| 0 <= v < 15 ==> counts@[v] == count_rank(cards@, v),
        flush == is_flush(cards@),
        high == straight_high(cards@),
    ensures
        rank == category(cards@),
{
    let mut four = false;
    let mut three = false;
    let mut pair = false;
    let mut two_pairs = false;
    let mut v: usize = 2;
    while v <= 14
        invariant
            2 <= v <= 15,
            counts@.len() == 15,
            forall|w: int| 0 <= w < 15 ==> counts@[w] == count_rank(cards@, w),
            four == multiple_below(cards@, 4, v as int),
            three == multiple_below(cards@, 3, v as int),
            pair == multiple_below(cards@, 2, v as int),
            two_pairs == two_pairs_below(cards@, v as int),
        decreases 15 - v,
    {
        let c = counts[v];
        if c == 4 {
            four = true;
        } else if c == 3 {
            three = true;
        } else if c == 2 {
            if pair {
                two_pairs = true;
            }
            pair = true;
        }
        v += 1;
    }
    assert(four == has_multiple(cards@, 4));
    assert(three == has_multiple(cards@, 3));
    assert(pair == has_multiple(cards@, 2));
    assert(two_pairs == has_two_pairs(cards@));
    if flush && high.is_some() {
        match high {
            Some(Rank::Ace) => HandRank::RoyalFlush,
            _ => HandRank::StraightFlush,
        }
    } else if four {
        HandRank::FourOfAKind
    } else if three && pair {
        HandRank::FullHouse
    } else if flush {
        HandRank::Flush
    } else if high.is_some() {
        HandRank::Straight
    } else if three {
        HandRank::ThreeOfAKind
    } else if two_pairs {
        HandRank::TwoPair
    } else if pair {
        HandRank::OnePair
    } else {
        HandRank::HighCard
    }
}

/// The cards in tie-break order: the ranks that occur most often first,
/// among those the highest first, and cards of one rank as they came.
fn pack(cards: &[Card], counts: &Vec<usize>) -> (out: Vec<Card>)
    requires
        counts@.len() == 15,
        forall|v: int| 0 <= v < 15 ==> counts@[v] == count_rank(cards@, v),
    ensures
        out@ == packed(cards@),
{
    let n = cards.len();
    let mut out: Vec<Card> = Vec::new();
    let mut m: usize = n;
    while m > 0
        invariant
            m <= n,
            n == cards@.len(),
            counts@.len() == 15,
            forall|v: int| 0 <= v < 15 ==> counts@[v] == count_rank(cards@, v),
            out@ == groups_above(cards@, m as int),
        decreases m,
    {
        let mut v: usize = 14;
        while v >= 2
            invariant
                1 <= v <= 14,
                1 <= m <= n,
                n == cards@.len(),
                counts@.len() == 15,
                forall|w: int| 0 <= w < 15 ==> counts@[w] == count_rank(cards@, w),
                out@ == groups_above(cards@, m as int) + buckets_above(cards@, m as int, v as int),
            decreases v,
        {
            let ghost base = out@;
            if counts[v] == m {
                let mut i: usize = 0;
                while i < n
                    invariant
                        i <= n,
                        n == cards@.len(),
                        2 <= v <= 14,
                        out@ == base + of_rank(cards@.take(i as int), v as int),
                    decreases n - i,
                {
                    proof {
                        let t = cards@.take(i as int + 1);
                        assert(t.drop_last() =~= cards@.take(i as int));
                        assert(t.last() == cards@[i as int]);
                    }
                    if cards[i].rank.value() as usize == v {
                        out.push(cards[i]);
                    }
                    i += 1;
                }
                assert(cards@.take(n as int) =~= cards@);
            }
            assert(out@ == base + bucket(cards@, m as int, v as int));
            assert(out@ =~= groups_above(cards@, m as int) + buckets_above(
                cards@,
                m as int,
                v as int - 1,
            ));
            v -= 1;
        }
        m -= 1;
    }
    out
}

/// Categorizes five cards and puts them in tie-break order.
pub fn evaluate_five(cards: &[Card]) -> (hand: EvaluatedHand)
    requires
        cards@.len() == 5,
    ensures
        hand@ == five_card_hand(cards@),
        hand.cards@.len() == 5,
        hand.cards@.to_multiset() == cards@.to_multiset(),
{
    let counts = rank_counts(cards);
    let flush = all_one_suit(cards);
    let high = straight_high_card(cards);
    let rank = classify(cards, &counts, flush, high);
    let mut ordered = pack(cards, &counts);
    proof {
        lemma_packed_keeps_cards(cards@);
        lemma_hand_keeps_cards(cards@);
    }
    match high {
        Some(Rank::Five) => {
            let ace = ordered.remove(0);
            ordered.push(ace);
            assert(ordered@ =~= first_to_back(packed(cards@)));
        },
        _ => {},
    }
    EvaluatedHand { rank, cards: ordered }
}

/// The best five-card hand among the cards. Every choice of five of them is
/// tried, in dictionary order of the places chosen, and a later choice
/// replaces an earlier one only where its hand is strictly better: among
/// equally good hands the first one tried is returned.
pub fn evaluate_hand(cards: &[Card]) -> (best: EvaluatedHand)
    requires
        cards@.len() >= 5,
    ensures
        is_best_hand(cards@, best@),
        best@ == best_hand(cards@),
        best.cards@.len() == 5,
        best.cards@.to_multiset().subset_of(cards@.to_multiset()),
{
    let n = cards.len();
    let mut i0: usize = 0;
    let mut i1: usize = 1;
    let mut i2: usize = 2;
    let mut i3: usize = 3;
    let mut i4: usize = 4;
    let first = vec![cards[0], cards[1], cards[2], cards[3], cards[4]];
    assert(first@ =~= pick(cards@, (0, 1, 2, 3, 4)));
    let mut best = evaluate_five(first.as_slice());
    let ghost mut kept: (int, int, int, int, int) = (0, 1, 2, 3, 4);
    proof {
        lemma_hand_order_reflexive(best@);
        assert forall|d: (int, int, int, int, int)|
            is_choice(n as int, d) && !choice_before(kept, d) implies d == kept by {}
    }
    while i0 < n - 5
        invariant
            n == cards@.len(),
            is_choice(n as int, (i0 as int, i1 as int, i2 as int, i3 as int, i4 as int)),
            is_choice(n as int, kept),
            best@ == five_card_hand(pick(cards@, kept)),
            forall|d: (int, int, int, int, int)|
                is_choice(n as int, d) && !choice_before(
                    (i0 as int, i1 as int, i2 as int, i3 as int, i4 as int),
                    d,
                ) ==> hand_order(five_card_hand(#[trigger] pick(cards@, d)), best@) <= 0,
            forall|d: (int, int, int, int, int)|
                is_choice(n as int, d) && choice_before(d, kept) ==> hand_order(
                    five_card_hand(#[trigger] pick(cards@, d)),
                    best@,
                ) < 0,
        decreases n - i0, n - i1, n - i2, n - i3, n - i4,
    {
        let ghost tried = (i0 as int, i1 as int, i2 as int, i3 as int, i4 as int);
        if i4 < n - 1 {
            i4 += 1;
        } else if i3 < n - 2 {
            i3 += 1;
            i4 = i3 + 1;
        } else if i2 < n - 3 {
            i2 += 1;
            i3 = i2 + 1;
            i4 = i3 + 1;
        } else if i1 < n - 4 {
            i1 += 1;
            i2 = i1 + 1;
            i3 = i2 + 1;
            i4 = i3 + 1;
        } else {
            i0 += 1;
            i1 = i0 + 1;
            i2 = i1 + 1;
            i3 = i2 + 1;
            i4 = i3 + 1;
        }
        let ghost next = (i0 as int, i1 as int, i2 as int, i3 as int, i4 as int);
        assert forall|d: (int, int, int, int, int)|
            is_choice(n as int, d) && !choice_before(next, d) && d != next implies !choice_before(
            tried,
            d,
        ) by {}
        let five = vec![cards[i0], cards[i1], cards[i2], cards[i3], cards[i4]];
        assert(five@ =~= pick(cards@, next));
        let hand = evaluate_five(five.as_slice());
        if hand.order(&best) > 0 {
            proof {
                let old_best = best@;
                lemma_hand_order_flips(hand@, old_best);
                lemma_hand_order_reflexive(hand@);
                assert forall|d: (int, int, int, int, int)|
                    is_choice(n as int, d) && !choice_before(tried, d) implies hand_order(
                    five_card_hand(#[trigger] pick(cards@, d)),
                    hand@,
                ) < 0 by {
                    lemma_hand_order_chains(five_card_hand(pick(cards@, d)), old_best, hand@);
                }
                assert forall|d: (int, int, int, int, int)|
                    is_choice(n as int, d) && choice_before(d, next) implies !choice_before(
                    tried,
                    d,
                ) by {}
                kept = next;
            }
            best = hand;
        }
    }
    proof {
        let last = (i0 as int, i1 as int, i2 as int, i3 as int, i4 as int);
        assert forall|d: (int, int, int, int, int)| is_choice(n as int, d) implies !choice_before(
            last,
            d,
        ) by {}
        assert(is_best_choice(cards@, kept, best@));
        lemma_best_hand_is_unique(cards@, best@, best@);
        lemma_best_hand_is_best(cards@, best@, kept);
    }
    best
}

} // verus!
