//! What holds of every hand: the tie-break sequence keeps the cards it was
//! made from, the order of hands is a total preorder in which the category
//! decides first, and straights and straight flushes are recognized for
//! what they are.

use crate::card::{Card, Rank};
use crate::hand::HandRank;
use crate::hand_model::{
    best_hand, bucket, buckets_above, category, choice_before, count_rank, first_to_back,
    five_card_hand, groups_above, hand_order, has_multiple, highest_run, is_best_choice,
    is_best_hand, is_choice, is_flush, is_wheel, of_rank, packed, pick, rank_order_from,
    run_ends_at, straight_high, tie_break, HandView,
};
use vstd::prelude::*;

verus! {

/// How often the card `c` occurs in `s`.
pub open spec fn occurrences(s: Seq<Card>, c: Card) -> nat {
    s.to_multiset().count(c)
}

/// Splitting off the last card splits the count of its occurrences.
proof fn lemma_occurrences_push(s: Seq<Card>, x: Card, c: Card)
    ensures
        occurrences(s.push(x), c) == occurrences(s, c) + if x == c {
            1nat
        } else {
            0nat
        },
{
    broadcast use vstd::seq_lib::group_to_multiset_ensures;

}

/// Counting in a sequence put together from two counts in both.
proof fn lemma_occurrences_add(a: Seq<Card>, b: Seq<Card>, c: Card)
    ensures
        occurrences(a + b, c) == occurrences(a, c) + occurrences(b, c),
{
    vstd::seq_lib::lemma_multiset_commutative(a, b);
}

/// Nothing occurs in the empty sequence.
proof fn lemma_occurrences_empty(c: Card)
    ensures
        occurrences(Seq::<Card>::empty(), c) == 0,
{
    broadcast use vstd::seq_lib::group_to_multiset_ensures;

    assert(Seq::<Card>::empty().len() == 0);
    assert(!Seq::<Card>::empty().contains(c));
}

/// The cards of one rank are the cards of `s` that have it, as often as `s`
/// has them; and no more cards have a rank than there are cards.
pub proof fn lemma_of_rank(s: Seq<Card>, v: int, c: Card)
    ensures
        occurrences(of_rank(s, v), c) == if c.rank.spec_value() == v {
            occurrences(s, c)
        } else {
            0
        },
        count_rank(s, v) <= s.len(),
    decreases s.len(),
{
    if s.len() == 0 {
        lemma_occurrences_empty(c);
        assert(s =~= Seq::<Card>::empty());
    } else {
        let t = s.drop_last();
        let x = s.last();
        lemma_of_rank(t, v, c);
        assert(s =~= t.push(x));
        lemma_occurrences_push(t, x, c);
        if x.rank.spec_value() == v {
            lemma_occurrences_push(of_rank(t, v), x, c);
        }
    }
}

/// A card of `s` is counted among the cards of its rank.
proof fn lemma_present_rank_counts(s: Seq<Card>, c: Card)
    requires
        occurrences(s, c) > 0,
    ensures
        1 <= count_rank(s, c.rank.spec_value()) <= s.len(),
{
    broadcast use vstd::seq_lib::group_to_multiset_ensures;

    let v = c.rank.spec_value();
    lemma_of_rank(s, v, c);
    assert(of_rank(s, v).contains(c));
}

/// The ranks above `v` that occur `m` times hold each card of such a rank
/// as often as `s` does, and no other card.
proof fn lemma_buckets_above(s: Seq<Card>, m: int, v: int, c: Card)
    requires
        1 <= v <= 14,
    ensures
        occurrences(buckets_above(s, m, v), c) == if v < c.rank.spec_value() && count_rank(
            s,
            c.rank.spec_value(),
        ) == m {
            occurrences(s, c)
        } else {
            0
        },
    decreases 14 - v,
{
    c.rank.lemma_value_round_trip();
    if v >= 14 {
        lemma_occurrences_empty(c);
    } else {
        lemma_buckets_above(s, m, v + 1, c);
        lemma_occurrences_add(buckets_above(s, m, v + 1), bucket(s, m, v + 1), c);
        lemma_of_rank(s, v + 1, c);
        lemma_occurrences_empty(c);
    }
}

/// The ranks that occur more than `m` times hold each card of such a rank
/// as often as `s` does, and no other card.
proof fn lemma_groups_above(s: Seq<Card>, m: int, c: Card)
    requires
        0 <= m,
    ensures
        occurrences(groups_above(s, m), c) == if m < count_rank(s, c.rank.spec_value()) {
            occurrences(s, c)
        } else {
            0
        },
    decreases s.len() - m,
{
    c.rank.lemma_value_round_trip();
    lemma_of_rank(s, c.rank.spec_value(), c);
    if m >= s.len() {
        lemma_occurrences_empty(c);
    } else {
        lemma_groups_above(s, m + 1, c);
        lemma_buckets_above(s, m + 1, 1, c);
        lemma_occurrences_add(groups_above(s, m + 1), buckets_above(s, m + 1, 1), c);
    }
}

/// The tie-break order only rearranges: it holds the cards of `s`, each as
/// often as `s` does.
pub proof fn lemma_packed_keeps_cards(s: Seq<Card>)
    ensures
        packed(s).to_multiset() == s.to_multiset(),
        packed(s).len() == s.len(),
{
    assert forall|c: Card| packed(s).to_multiset().count(c) == s.to_multiset().count(c) by {
        lemma_groups_above(s, 0, c);
        if occurrences(s, c) > 0 {
            lemma_present_rank_counts(s, c);
        }
    }
    assert(packed(s).to_multiset() =~= s.to_multiset());
    vstd::seq_lib::to_multiset_len(packed(s));
    vstd::seq_lib::to_multiset_len(s);
}

/// Moving the first card to the back only rearranges.
pub proof fn lemma_first_to_back_keeps_cards(s: Seq<Card>)
    requires
        s.len() > 0,
    ensures
        first_to_back(s).to_multiset() == s.to_multiset(),
        first_to_back(s).len() == s.len(),
{
    let head = seq![s.first()];
    let tail = s.drop_first();
    assert(s =~= head + tail);
    assert(first_to_back(s) =~= tail + head);
    vstd::seq_lib::lemma_multiset_commutative(head, tail);
    vstd::seq_lib::lemma_multiset_commutative(tail, head);
    assert(first_to_back(s).to_multiset() =~= s.to_multiset());
}

/// A hand is made of the cards it was given: the tie-break sequence of
/// five cards holds these five cards and no others.
pub proof fn lemma_hand_keeps_cards(s: Seq<Card>)
    requires
        s.len() > 0,
    ensures
        five_card_hand(s).cards.to_multiset() == s.to_multiset(),
        five_card_hand(s).cards.len() == s.len(),
{
    lemma_packed_keeps_cards(s);
    lemma_first_to_back_keeps_cards(packed(s));
}

/// Comparing by rank from a position on gives -1, 0 or 1, and the other
/// way round it gives the opposite.
pub proof fn lemma_rank_order_flips(a: Seq<Card>, b: Seq<Card>, i: int)
    ensures
        -1 <= rank_order_from(a, b, i) <= 1,
        rank_order_from(b, a, i) == -rank_order_from(a, b, i),
    decreases a.len() - i,
{
    if 0 <= i < a.len() && i < b.len() && a[i].rank.spec_value() == b[i].rank.spec_value() {
        lemma_rank_order_flips(a, b, i + 1);
    }
}

/// Comparing by rank from a position on is transitive, and strict as soon
/// as one of the two steps is.
pub proof fn lemma_rank_order_chains(a: Seq<Card>, b: Seq<Card>, c: Seq<Card>, i: int)
    requires
        rank_order_from(a, b, i) <= 0,
        rank_order_from(b, c, i) <= 0,
    ensures
        rank_order_from(a, c, i) <= 0,
        rank_order_from(a, b, i) < 0 || rank_order_from(b, c, i) < 0 ==> rank_order_from(a, c, i)
            < 0,
    decreases a.len() - i,
{
    if 0 <= i < a.len() && i < b.len() && i < c.len() && a[i].rank.spec_value()
        == b[i].rank.spec_value() && b[i].rank.spec_value() == c[i].rank.spec_value() {
        lemma_rank_order_chains(a, b, c, i + 1);
    }
}

/// A hand ties with itself.
pub proof fn lemma_hand_order_reflexive(a: HandView)
    ensures
        hand_order(a, a) == 0,
{
    lemma_rank_order_flips(a.cards, a.cards, 0);
}

/// The order of hands is total and two-sided: comparing gives -1, 0 or 1,
/// and `b` against `a` gives the opposite of `a` against `b`.
pub proof fn lemma_hand_order_flips(a: HandView, b: HandView)
    ensures
        -1 <= hand_order(a, b) <= 1,
        hand_order(b, a) == -hand_order(a, b),
{
    lemma_rank_order_flips(a.cards, b.cards, 0);
}

/// The order of hands is transitive: a hand that does not beat `b`, where
/// `b` does not beat `c`, does not beat `c`; and it loses to `c` as soon as
/// it loses to `b` or `b` loses to `c`.
pub proof fn lemma_hand_order_chains(a: HandView, b: HandView, c: HandView)
    requires
        hand_order(a, b) <= 0,
        hand_order(b, c) <= 0,
    ensures
        hand_order(a, c) <= 0,
        hand_order(a, b) < 0 || hand_order(b, c) < 0 ==> hand_order(a, c) < 0,
{
    lemma_rank_order_flips(a.cards, b.cards, 0);
    lemma_rank_order_flips(b.cards, c.cards, 0);
    lemma_rank_order_flips(a.cards, c.cards, 0);
    if a.rank.spec_strength() == b.rank.spec_strength() && b.rank.spec_strength()
        == c.rank.spec_strength() {
        lemma_rank_order_chains(a.cards, b.cards, c.cards, 0);
    }
}

/// The category decides before any kicker does: a hand of a lower category
/// loses to a hand of a higher one, whatever cards the two hold.
pub proof fn lemma_category_decides(a: HandView, b: HandView)
    requires
        a.rank.spec_strength() < b.rank.spec_strength(),
    ensures
        hand_order(a, b) < 0,
        hand_order(b, a) > 0,
{
}

/// A high-card hand never beats a hand with a pair, whatever the kickers.
pub proof fn lemma_high_card_loses_to_pair(a: HandView, b: HandView)
    requires
        a.rank == HandRank::HighCard,
        b.rank == HandRank::OnePair,
    ensures
        hand_order(a, b) < 0,
{
}

/// One where the card has the rank that counts for `v`, zero where not.
#[verifier::opaque]
pub open spec fn hit(c: Card, v: int) -> nat {
    if c.rank.spec_value() == v {
        1
    } else {
        0
    }
}

/// One more card counts for its own rank and for no other.
proof fn lemma_count_push(s: Seq<Card>, x: Card, v: int)
    ensures
        count_rank(s.push(x), v) == count_rank(s, v) + hit(x, v),
{
    reveal(hit);
    assert(s.push(x).drop_last() =~= s);
}

/// Among five cards a rank occurs as often as the five cards have it.
pub proof fn lemma_count_five(s: Seq<Card>, v: int)
    requires
        s.len() == 5,
    ensures
        count_rank(s, v) == hit(s[0], v) + hit(s[1], v) + hit(s[2], v) + hit(s[3], v) + hit(
            s[4],
            v,
        ),
{
    let s0 = Seq::<Card>::empty();
    let s1 = s0.push(s[0]);
    let s2 = s1.push(s[1]);
    let s3 = s2.push(s[2]);
    let s4 = s3.push(s[3]);
    let s5 = s4.push(s[4]);
    assert(s5 =~= s);
    lemma_count_push(s0, s[0], v);
    lemma_count_push(s1, s[1], v);
    lemma_count_push(s2, s[2], v);
    lemma_count_push(s3, s[3], v);
    lemma_count_push(s4, s[4], v);
}

/// How often a rank occurs does not depend on the order of the cards.
pub proof fn lemma_count_rank_of_rearranged(a: Seq<Card>, b: Seq<Card>, v: int)
    requires
        a.to_multiset() == b.to_multiset(),
    ensures
        count_rank(a, v) == count_rank(b, v),
{
    assert forall|c: Card|
        of_rank(a, v).to_multiset().count(c) == of_rank(b, v).to_multiset().count(c) by {
        lemma_of_rank(a, v, c);
        lemma_of_rank(b, v, c);
    }
    assert(of_rank(a, v).to_multiset() =~= of_rank(b, v).to_multiset());
    vstd::seq_lib::to_multiset_len(of_rank(a, v));
    vstd::seq_lib::to_multiset_len(of_rank(b, v));
}

/// The cards of one rank have that rank.
proof fn lemma_of_rank_members(s: Seq<Card>, v: int)
    ensures
        forall|i: int| 0 <= i < of_rank(s, v).len() ==> (#[trigger] of_rank(s, v)[i]).rank.spec_value() == v,
    decreases s.len(),
{
    if s.len() > 0 {
        lemma_of_rank_members(s.drop_last(), v);
    }
}

/// `x` stands before `y` in tie-break order, or may: its rank occurs more
/// often in `s`, or as often and it is not the lower rank.
pub open spec fn outranks(s: Seq<Card>, x: Card, y: Card) -> bool {
    let nx = count_rank(s, x.rank.spec_value());
    let ny = count_rank(s, y.rank.spec_value());
    nx > ny || (nx == ny && x.rank.spec_value() >= y.rank.spec_value())
}

/// Among the ranks that occur `m` times, what stands above `v` has such a
/// rank and stands in falling rank.
proof fn lemma_buckets_above_ordered(s: Seq<Card>, m: int, v: int)
    requires
        1 <= v <= 14,
    ensures
        forall|i: int|
            0 <= i < buckets_above(s, m, v).len() ==> {
                let r = (#[trigger] buckets_above(s, m, v)[i]).rank.spec_value();
                v < r && count_rank(s, r) == m
            },
        forall|i: int, j: int|
            0 <= i < j < buckets_above(s, m, v).len() ==> (#[trigger] buckets_above(
                s,
                m,
                v,
            )[i]).rank.spec_value() >= (#[trigger] buckets_above(s, m, v)[j]).rank.spec_value(),
    decreases 14 - v,
{
    if v < 14 {
        lemma_buckets_above_ordered(s, m, v + 1);
        lemma_of_rank_members(s, v + 1);
        let high = buckets_above(s, m, v + 1);
        let low = bucket(s, m, v + 1);
        let all = buckets_above(s, m, v);
        assert(all == high + low);
        assert forall|i: int| 0 <= i < all.len() implies {
            let r = (#[trigger] all[i]).rank.spec_value();
            v < r && count_rank(s, r) == m
        } by {
            if i >= high.len() {
                assert(all[i] == low[i - high.len()]);
            } else {
                assert(all[i] == high[i]);
            }
        }
        assert forall|i: int, j: int| 0 <= i < j < all.len() implies (#[trigger] all[i]).rank.spec_value()
            >= (#[trigger] all[j]).rank.spec_value() by {
            if i >= high.len() {
                assert(all[i] == low[i - high.len()]);
                assert(all[j] == low[j - high.len()]);
            } else if j >= high.len() {
                assert(all[i] == high[i]);
                assert(all[j] == low[j - high.len()]);
            } else {
                assert(all[i] == high[i]);
                assert(all[j] == high[j]);
            }
        }
    }
}

/// What occurs more than `m` times stands in tie-break order.
proof fn lemma_groups_above_ordered(s: Seq<Card>, m: int)
    requires
        0 <= m,
    ensures
        forall|i: int|
            0 <= i < groups_above(s, m).len() ==> count_rank(
                s,
                (#[trigger] groups_above(s, m)[i]).rank.spec_value(),
            ) > m,
        forall|i: int, j: int|
            0 <= i < j < groups_above(s, m).len() ==> outranks(
                s,
                #[trigger] groups_above(s, m)[i],
                #[trigger] groups_above(s, m)[j],
            ),
    decreases s.len() - m,
{
    if m < s.len() {
        lemma_groups_above_ordered(s, m + 1);
        lemma_buckets_above_ordered(s, m + 1, 1);
        let high = groups_above(s, m + 1);
        let low = buckets_above(s, m + 1, 1);
        let all = groups_above(s, m);
        assert(all == high + low);
        assert forall|i: int| 0 <= i < all.len() implies count_rank(
            s,
            (#[trigger] all[i]).rank.spec_value(),
        ) > m by {
            if i >= high.len() {
                assert(all[i] == low[i - high.len()]);
            } else {
                assert(all[i] == high[i]);
            }
        }
        assert forall|i: int, j: int| 0 <= i < j < all.len() implies outranks(
            s,
            #[trigger] all[i],
            #[trigger] all[j],
        ) by {
            if i >= high.len() {
                assert(all[i] == low[i - high.len()]);
                assert(all[j] == low[j - high.len()]);
            } else if j >= high.len() {
                assert(all[i] == high[i]);
                assert(all[j] == low[j - high.len()]);
            } else {
                assert(all[i] == high[i]);
                assert(all[j] == high[j]);
            }
        }
    }
}

/// In tie-break order the groups stand first: of two cards the earlier one
/// has the rank that occurs more often, or where both occur equally often,
/// the rank that is not lower.
pub proof fn lemma_packed_is_ordered(s: Seq<Card>)
    ensures
        forall|i: int, j: int|
            0 <= i < j < packed(s).len() ==> outranks(
                s,
                #[trigger] packed(s)[i],
                #[trigger] packed(s)[j],
            ),
{
    lemma_groups_above_ordered(s, 0);
}

/// Where a run ends at `h` and none ends above it up to `k`, the highest
/// run up to `k` is the one at `h`.
proof fn lemma_highest_run_is(s: Seq<Card>, k: int, h: int)
    requires
        6 <= h <= k,
        run_ends_at(s, h),
        forall|j: int| h < j <= k ==> !#[trigger] run_ends_at(s, j),
    ensures
        highest_run(s, k) == Some(h),
    decreases k - h,
{
    if k > h {
        lemma_highest_run_is(s, k - 1, h);
    }
}

/// Where no run ends anywhere up to `k`, there is no highest one.
proof fn lemma_no_run(s: Seq<Card>, k: int)
    requires
        forall|j: int| 6 <= j <= k ==> !#[trigger] run_ends_at(s, j),
    ensures
        highest_run(s, k) is None,
    decreases k,
{
    if k >= 6 {
        lemma_no_run(s, k - 1);
    }
}

/// A card has at most one of five different ranks.
proof fn lemma_card_hits_once(x: Card, a: int, b: int, c: int, d: int, e: int)
    requires
        a != b && a != c && a != d && a != e && b != c && b != d && b != e && c != d && c != e
            && d != e,
    ensures
        share(x, a, b, c, d, e) <= 1,
{
    reveal(hit);
}

/// A card that has one of five ranks has no sixth.
proof fn lemma_card_rank_is_taken(x: Card, a: int, b: int, c: int, d: int, e: int, v: int)
    requires
        share(x, a, b, c, d, e) == 1,
        v != a && v != b && v != c && v != d && v != e,
    ensures
        hit(x, v) == 0,
{
    reveal(hit);
}

/// What the card `x` counts for among five ranks.
spec fn share(x: Card, a: int, b: int, c: int, d: int, e: int) -> nat {
    hit(x, a) + hit(x, b) + hit(x, c) + hit(x, d) + hit(x, e)
}

/// Five cards that hold five different ranks hold each of them once, and
/// each card has one of them.
#[verifier::rlimit(50)]
proof fn lemma_five_ranks_once_each(s: Seq<Card>, a: int, b: int, c: int, d: int, e: int)
    requires
        s.len() == 5,
        a != b && a != c && a != d && a != e && b != c && b != d && b != e && c != d && c != e
            && d != e,
        count_rank(s, a) > 0,
        count_rank(s, b) > 0,
        count_rank(s, c) > 0,
        count_rank(s, d) > 0,
        count_rank(s, e) > 0,
    ensures
        count_rank(s, a) == 1,
        count_rank(s, b) == 1,
        count_rank(s, c) == 1,
        count_rank(s, d) == 1,
        count_rank(s, e) == 1,
        share(s[0], a, b, c, d, e) == 1,
        share(s[1], a, b, c, d, e) == 1,
        share(s[2], a, b, c, d, e) == 1,
        share(s[3], a, b, c, d, e) == 1,
        share(s[4], a, b, c, d, e) == 1,
{
    // One row for each rank, one column for each card.
    let (na, a0, a1, a2, a3, a4) = (
        count_rank(s, a) as int,
        hit(s[0], a) as int,
        hit(s[1], a) as int,
        hit(s[2], a) as int,
        hit(s[3], a) as int,
        hit(s[4], a) as int,
    );
    let (nb, b0, b1, b2, b3, b4) = (
        count_rank(s, b) as int,
        hit(s[0], b) as int,
        hit(s[1], b) as int,
        hit(s[2], b) as int,
        hit(s[3], b) as int,
        hit(s[4], b) as int,
    );
    let (nc, c0, c1, c2, c3, c4) = (
        count_rank(s, c) as int,
        hit(s[0], c) as int,
        hit(s[1], c) as int,
        hit(s[2], c) as int,
        hit(s[3], c) as int,
        hit(s[4], c) as int,
    );
    let (nd, d0, d1, d2, d3, d4) = (
        count_rank(s, d) as int,
        hit(s[0], d) as int,
        hit(s[1], d) as int,
        hit(s[2], d) as int,
        hit(s[3], d) as int,
        hit(s[4], d) as int,
    );
    let (ne, e0, e1, e2, e3, e4) = (
        count_rank(s, e) as int,
        hit(s[0], e) as int,
        hit(s[1], e) as int,
        hit(s[2], e) as int,
        hit(s[3], e) as int,
        hit(s[4], e) as int,
    );
    assert(na == a0 + a1 + a2 + a3 + a4) by {
        lemma_count_five(s, a);
    }
    assert(nb == b0 + b1 + b2 + b3 + b4) by {
        lemma_count_five(s, b);
    }
    assert(nc == c0 + c1 + c2 + c3 + c4) by {
        lemma_count_five(s, c);
    }
    assert(nd == d0 + d1 + d2 + d3 + d4) by {
        lemma_count_five(s, d);
    }
    assert(ne == e0 + e1 + e2 + e3 + e4) by {
        lemma_count_five(s, e);
    }
    assert(a0 + b0 + c0 + d0 + e0 <= 1) by {
        lemma_card_hits_once(s[0], a, b, c, d, e);
    }
    assert(a1 + b1 + c1 + d1 + e1 <= 1) by {
        lemma_card_hits_once(s[1], a, b, c, d, e);
    }
    assert(a2 + b2 + c2 + d2 + e2 <= 1) by {
        lemma_card_hits_once(s[2], a, b, c, d, e);
    }
    assert(a3 + b3 + c3 + d3 + e3 <= 1) by {
        lemma_card_hits_once(s[3], a, b, c, d, e);
    }
    assert(a4 + b4 + c4 + d4 + e4 <= 1) by {
        lemma_card_hits_once(s[4], a, b, c, d, e);
    }
    assert({
        &&& na == 1 && nb == 1 && nc == 1 && nd == 1 && ne == 1
        &&& a0 + b0 + c0 + d0 + e0 == 1
        &&& a1 + b1 + c1 + d1 + e1 == 1
        &&& a2 + b2 + c2 + d2 + e2 == 1
        &&& a3 + b3 + c3 + d3 + e3 == 1
        &&& a4 + b4 + c4 + d4 + e4 == 1
    }) by (nonlinear_arith)
        requires
            na >= 1 && nb >= 1 && nc >= 1 && nd >= 1 && ne >= 1,
            na == a0 + a1 + a2 + a3 + a4,
            nb == b0 + b1 + b2 + b3 + b4,
            nc == c0 + c1 + c2 + c3 + c4,
            nd == d0 + d1 + d2 + d3 + d4,
            ne == e0 + e1 + e2 + e3 + e4,
            a0 + b0 + c0 + d0 + e0 <= 1,
            a1 + b1 + c1 + d1 + e1 <= 1,
            a2 + b2 + c2 + d2 + e2 <= 1,
            a3 + b3 + c3 + d3 + e3 <= 1,
            a4 + b4 + c4 + d4 + e4 <= 1,
    ;
}

/// Five cards that hold five different ranks hold no other rank.
proof fn lemma_five_ranks_no_other(s: Seq<Card>, a: int, b: int, c: int, d: int, e: int, v: int)
    requires
        s.len() == 5,
        a != b && a != c && a != d && a != e && b != c && b != d && b != e && c != d && c != e
            && d != e,
        count_rank(s, a) > 0,
        count_rank(s, b) > 0,
        count_rank(s, c) > 0,
        count_rank(s, d) > 0,
        count_rank(s, e) > 0,
        v != a && v != b && v != c && v != d && v != e,
    ensures
        count_rank(s, v) == 0,
{
    lemma_five_ranks_once_each(s, a, b, c, d, e);
    lemma_count_five(s, v);
    lemma_card_rank_is_taken(s[0], a, b, c, d, e, v);
    lemma_card_rank_is_taken(s[1], a, b, c, d, e, v);
    lemma_card_rank_is_taken(s[2], a, b, c, d, e, v);
    lemma_card_rank_is_taken(s[3], a, b, c, d, e, v);
    lemma_card_rank_is_taken(s[4], a, b, c, d, e, v);
}

/// Five cards that hold five different ranks hold each of them once and
/// no other rank.
pub proof fn lemma_five_ranks_fill_hand(s: Seq<Card>, a: int, b: int, c: int, d: int, e: int)
    requires
        s.len() == 5,
        a != b && a != c && a != d && a != e && b != c && b != d && b != e && c != d && c != e
            && d != e,
        count_rank(s, a) > 0,
        count_rank(s, b) > 0,
        count_rank(s, c) > 0,
        count_rank(s, d) > 0,
        count_rank(s, e) > 0,
    ensures
        forall|v: int| #[trigger]
            count_rank(s, v) == if v == a || v == b || v == c || v == d || v == e {
                1nat
            } else {
                0nat
            },
{
    lemma_five_ranks_once_each(s, a, b, c, d, e);
    assert forall|v: int| #[trigger]
        count_rank(s, v) == if v == a || v == b || v == c || v == d || v == e {
            1nat
        } else {
            0nat
        } by {
        if v != a && v != b && v != c && v != d && v != e {
            lemma_five_ranks_no_other(s, a, b, c, d, e, v);
        }
    }
}

/// Five cards that hold a run of five ranks hold each of these ranks once
/// and no other rank.
pub proof fn lemma_run_fills_hand(s: Seq<Card>, h: int)
    requires
        s.len() == 5,
        run_ends_at(s, h),
    ensures
        forall|v: int| #[trigger] count_rank(s, v) == if h - 4 <= v <= h { 1nat } else { 0nat },
{
    lemma_five_ranks_fill_hand(s, h, h - 1, h - 2, h - 3, h - 4);
}

/// Five cards that hold the wheel hold ace, deuce, three, four and five
/// once each and no other rank.
pub proof fn lemma_wheel_fills_hand(s: Seq<Card>)
    requires
        s.len() == 5,
        is_wheel(s),
    ensures
        forall|v: int| #[trigger] count_rank(s, v) == if v == 14 || 2 <= v <= 5 { 1nat } else { 0nat },
{
    lemma_five_ranks_fill_hand(s, 14, 2, 3, 4, 5);
}

/// Five cards with a run of five ranks that ends at `h` make a straight
/// whose top is the rank of `h`; five cards with the wheel make a straight
/// whose top is the five.
pub proof fn lemma_straight_high_of_five(s: Seq<Card>, h: int)
    requires
        s.len() == 5,
        (6 <= h <= 14 && run_ends_at(s, h)) || (h == 5 && is_wheel(s)),
    ensures
        straight_high(s) == Some(Rank::spec_from_value(h)),
        !has_multiple(s, 4),
        !has_multiple(s, 3),
        !has_multiple(s, 2),
{
    if h == 5 {
        lemma_wheel_fills_hand(s);
        assert forall|j: int| 6 <= j <= 14 implies !#[trigger] run_ends_at(s, j) by {
            assert(count_rank(s, 6) == 0);
            assert(count_rank(s, 7) == 0);
            assert(count_rank(s, 8) == 0);
            assert(count_rank(s, 9) == 0);
            assert(count_rank(s, 10) == 0);
        }
        lemma_no_run(s, 14);
    } else {
        lemma_run_fills_hand(s, h);
        assert forall|j: int| h < j <= 14 implies !#[trigger] run_ends_at(s, j) by {
            assert(count_rank(s, j) == 0);
        }
        lemma_highest_run_is(s, 14, h);
    }
}

/// Five cards of one suit whose ranks are five in a row make a straight
/// flush, and a royal flush where the run ends at the ace.
pub proof fn lemma_straight_flush(s: Seq<Card>, h: int)
    requires
        s.len() == 5,
        is_flush(s),
        6 <= h <= 14,
        run_ends_at(s, h),
    ensures
        category(s) == if h == 14 {
            HandRank::RoyalFlush
        } else {
            HandRank::StraightFlush
        },
{
    lemma_straight_high_of_five(s, h);
}

/// Five cards of one suit that hold the wheel make a straight flush.
pub proof fn lemma_wheel_flush(s: Seq<Card>)
    requires
        s.len() == 5,
        is_flush(s),
        is_wheel(s),
    ensures
        category(s) == HandRank::StraightFlush,
{
    lemma_straight_high_of_five(s, 5);
}

/// Five cards of mixed suits whose ranks are five in a row, or the wheel,
/// make a straight.
pub proof fn lemma_plain_straight(s: Seq<Card>, h: int)
    requires
        s.len() == 5,
        !is_flush(s),
        (6 <= h <= 14 && run_ends_at(s, h)) || (h == 5 && is_wheel(s)),
    ensures
        category(s) == HandRank::Straight,
{
    lemma_straight_high_of_five(s, h);
}

/// The ranks of a straight in tie-break order: from the top of the run
/// down, and in the wheel from the five down with the ace last.
pub proof fn lemma_straight_tie_break(s: Seq<Card>, h: int)
    requires
        s.len() == 5,
        (6 <= h <= 14 && run_ends_at(s, h)) || (h == 5 && is_wheel(s)),
    ensures
        tie_break(s).len() == 5,
        tie_break(s)[0].rank.spec_value() == h,
        tie_break(s)[1].rank.spec_value() == h - 1,
        tie_break(s)[2].rank.spec_value() == h - 2,
        tie_break(s)[3].rank.spec_value() == h - 3,
        tie_break(s)[4].rank.spec_value() == if h == 5 { 14 } else { h - 4 },
{
    let p = packed(s);
    lemma_straight_high_of_five(s, h);
    lemma_packed_keeps_cards(s);
    lemma_packed_is_ordered(s);
    if h == 5 {
        lemma_wheel_fills_hand(s);
    } else {
        lemma_run_fills_hand(s, h);
    }
    assert forall|v: int| count_rank(p, v) == count_rank(s, v) by {
        lemma_count_rank_of_rearranged(p, s, v);
    }
    assert forall|v: int|
        count_rank(s, v) == hit(p[0], v) + hit(p[1], v) + hit(p[2], v) + hit(p[3], v) + hit(
            p[4],
            v,
        ) by {
        lemma_count_rank_of_rearranged(p, s, v);
        lemma_count_five(p, v);
    }
    reveal(hit);
    let r0 = p[0].rank.spec_value();
    let r1 = p[1].rank.spec_value();
    let r2 = p[2].rank.spec_value();
    let r3 = p[3].rank.spec_value();
    let r4 = p[4].rank.spec_value();
    assert(count_rank(s, r0) == 1 && count_rank(s, r1) == 1 && count_rank(s, r2) == 1 && count_rank(
        s,
        r3,
    ) == 1 && count_rank(s, r4) == 1);
    assert(outranks(s, p[0], p[1]) && outranks(s, p[1], p[2]) && outranks(s, p[2], p[3])
        && outranks(s, p[3], p[4]));
    assert(r0 > r1 > r2 > r3 > r4);
    if h == 5 {
        assert(r0 == 14 && r1 == 5 && r2 == 4 && r3 == 3 && r4 == 2);
        assert(straight_high(s) == Some(Rank::Five));
        assert(tie_break(s) == first_to_back(p));
    } else {
        assert(r0 == h && r1 == h - 1 && r2 == h - 2 && r3 == h - 3 && r4 == h - 4);
        assert(Rank::spec_from_value(h) != Rank::Five);
    }
}

/// The wheel is the lowest straight: of mixed suits it makes a straight
/// whose top is the five, and it loses to every straight that is a plain
/// run of five ranks, the one from deuce to six included.
pub proof fn lemma_wheel_is_lowest_straight(a: Seq<Card>, b: Seq<Card>, h: int)
    requires
        a.len() == 5,
        is_wheel(a),
        !is_flush(a),
        b.len() == 5,
        6 <= h <= 14,
        run_ends_at(b, h),
        !is_flush(b),
    ensures
        five_card_hand(a).rank == HandRank::Straight,
        straight_high(a) == Some(Rank::Five),
        five_card_hand(b).rank == HandRank::Straight,
        hand_order(five_card_hand(a), five_card_hand(b)) < 0,
{
    lemma_plain_straight(a, 5);
    lemma_plain_straight(b, h);
    lemma_straight_high_of_five(a, 5);
    lemma_straight_tie_break(a, 5);
    lemma_straight_tie_break(b, h);
}

/// The best hand is one hand: two hands that both are the best, first
/// choice among the cards are the same hand, the one that `best_hand`
/// names.
pub proof fn lemma_best_hand_is_unique(s: Seq<Card>, a: HandView, b: HandView)
    requires
        is_best_hand(s, a),
        is_best_hand(s, b),
    ensures
        a == b,
        a == best_hand(s),
{
    lemma_best_hand_differs(s, a, b);
    lemma_best_hand_differs(s, a, best_hand(s));
}

/// Two hands that both are the best, first choice are the same hand.
proof fn lemma_best_hand_differs(s: Seq<Card>, a: HandView, b: HandView)
    requires
        is_best_hand(s, a),
        is_best_hand(s, b),
    ensures
        a == b,
{
    let c = choose|c: (int, int, int, int, int)| is_best_choice(s, c, a);
    let d = choose|d: (int, int, int, int, int)| is_best_choice(s, d, b);
    lemma_hand_order_flips(a, b);
    if choice_before(c, d) {
        assert(hand_order(five_card_hand(pick(s, c)), b) < 0);
        assert(hand_order(five_card_hand(pick(s, d)), a) <= 0);
    } else if choice_before(d, c) {
        assert(hand_order(five_card_hand(pick(s, d)), a) < 0);
        assert(hand_order(five_card_hand(pick(s, c)), b) <= 0);
    } else {
        assert(c == d);
    }
}

/// A card picked from a sequence occurs in what is picked no more often
/// than in the sequence: the five places are different places.
proof fn lemma_pick_is_part(s: Seq<Card>, c: (int, int, int, int, int), x: Card)
    requires
        is_choice(s.len() as int, c),
    ensures
        occurrences(pick(s, c), x) <= occurrences(s, x),
{
    let n = s.len() as int;
    let g0 = s.subrange(0, c.0);
    let g1 = s.subrange(c.0 + 1, c.1);
    let g2 = s.subrange(c.1 + 1, c.2);
    let g3 = s.subrange(c.2 + 1, c.3);
    let g4 = s.subrange(c.3 + 1, c.4);
    let g5 = s.subrange(c.4 + 1, n);
    let p0 = seq![s[c.0]];
    let p1 = seq![s[c.1]];
    let p2 = seq![s[c.2]];
    let p3 = seq![s[c.3]];
    let p4 = seq![s[c.4]];
    let t1 = g0 + p0;
    let t2 = t1 + g1;
    let t3 = t2 + p1;
    let t4 = t3 + g2;
    let t5 = t4 + p2;
    let t6 = t5 + g3;
    let t7 = t6 + p3;
    let t8 = t7 + g4;
    let t9 = t8 + p4;
    assert(t9 + g5 =~= s);
    lemma_occurrences_add(g0, p0, x);
    lemma_occurrences_add(t1, g1, x);
    lemma_occurrences_add(t2, p1, x);
    lemma_occurrences_add(t3, g2, x);
    lemma_occurrences_add(t4, p2, x);
    lemma_occurrences_add(t5, g3, x);
    lemma_occurrences_add(t6, p3, x);
    lemma_occurrences_add(t7, g4, x);
    lemma_occurrences_add(t8, p4, x);
    lemma_occurrences_add(t9, g5, x);
    let q1 = p0 + p1;
    let q2 = q1 + p2;
    let q3 = q2 + p3;
    assert(q3 + p4 =~= pick(s, c));
    lemma_occurrences_add(p0, p1, x);
    lemma_occurrences_add(q1, p2, x);
    lemma_occurrences_add(q2, p3, x);
    lemma_occurrences_add(q3, p4, x);
}

/// No five of the cards make a better hand than the best hand, and the
/// best hand is made of five of the cards: it holds no card more often than
/// they do.
pub proof fn lemma_best_hand_is_best(s: Seq<Card>, h: HandView, c: (int, int, int, int, int))
    requires
        is_best_hand(s, h),
        is_choice(s.len() as int, c),
    ensures
        hand_order(five_card_hand(pick(s, c)), h) <= 0,
        h.cards.len() == 5,
        h.cards.to_multiset().subset_of(s.to_multiset()),
{
    let w = choose|w: (int, int, int, int, int)| is_best_choice(s, w, h);
    assert(hand_order(five_card_hand(pick(s, c)), h) <= 0);
    lemma_hand_keeps_cards(pick(s, w));
    assert forall|x: Card| h.cards.to_multiset().count(x) <= s.to_multiset().count(x) by {
        lemma_pick_is_part(s, w, x);
    }
}

/// The best hand of five cards is the hand that the five cards make.
pub proof fn lemma_best_of_five(s: Seq<Card>)
    requires
        s.len() == 5,
    ensures
        is_best_hand(s, five_card_hand(s)),
        best_hand(s) == five_card_hand(s),
{
    let only = (0int, 1int, 2int, 3int, 4int);
    let h = five_card_hand(s);
    assert(pick(s, only) =~= s);
    lemma_hand_order_reflexive(h);
    assert forall|d: (int, int, int, int, int)| is_choice(5, d) implies d == only by {}
    assert(is_best_choice(s, only, h));
    lemma_best_hand_is_unique(s, h, h);
}

} // verus!
