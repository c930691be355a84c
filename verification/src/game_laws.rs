//! What holds of every game: the accounts stay in order through every
//! operation, and the rules of the betting round have the consequences
//! that players rely on.

use crate::card::Card;
use crate::game_model::{
    clear_actions, clear_other_actions, reset_all, seat_after, total_balance, total_in_play,
    GameView,
};
use crate::hand_laws::lemma_hand_order_flips;
use crate::player::{PlayerAction, PlayerState, PlayerView};
use vstd::prelude::*;

verus! {

/// Putting another player in a seat changes the totals by what the two
/// players differ in.
pub proof fn lemma_totals_after_update(players: Seq<PlayerView>, seat: int, p: PlayerView)
    requires
        0 <= seat < players.len(),
    ensures
        total_balance(players.update(seat, p)) + players[seat].balance == total_balance(players)
            + p.balance,
        total_in_play(players.update(seat, p)) + players[seat].chips_in_play == total_in_play(
            players,
        ) + p.chips_in_play,
    decreases players.len(),
{
    let after = players.update(seat, p);
    if seat == players.len() - 1 {
        assert(after.drop_last() =~= players.drop_last());
    } else {
        lemma_totals_after_update(players.drop_last(), seat, p);
        assert(after.drop_last() =~= players.drop_last().update(seat, p));
    }
}

/// The totals depend on the chips of the players alone.
pub proof fn lemma_totals_of_same_chips(a: Seq<PlayerView>, b: Seq<PlayerView>)
    requires
        a.len() == b.len(),
        forall|i: int|
            0 <= i < a.len() ==> (#[trigger] a[i]).balance == b[i].balance && a[i].chips_in_play
                == b[i].chips_in_play,
    ensures
        total_balance(a) == total_balance(b),
        total_in_play(a) == total_in_play(b),
    decreases a.len(),
{
    if a.len() > 0 {
        assert(a.last().balance == b.last().balance) by {
            assert(a[a.len() - 1].balance == b[a.len() - 1].balance);
        }
        lemma_totals_of_same_chips(a.drop_last(), b.drop_last());
    }
}

/// No player holds more than all players together.
pub proof fn lemma_share_of_totals(players: Seq<PlayerView>, seat: int)
    requires
        0 <= seat < players.len(),
    ensures
        players[seat].balance <= total_balance(players),
        players[seat].chips_in_play <= total_in_play(players),
    decreases players.len(),
{
    if seat < players.len() - 1 {
        lemma_share_of_totals(players.drop_last(), seat);
    }
}

/// Resetting the players for a new hand keeps their balances and leaves
/// nothing in play.
pub proof fn lemma_totals_after_reset(players: Seq<PlayerView>)
    ensures
        total_balance(reset_all(players)) == total_balance(players),
        total_in_play(reset_all(players)) == 0,
    decreases players.len(),
{
    let after = reset_all(players);
    if players.len() > 0 {
        lemma_totals_after_reset(players.drop_last());
        assert(after.drop_last() =~= reset_all(players.drop_last()));
    }
}

/// A new player brings their balance to the table and nothing into play.
pub proof fn lemma_add_player_keeps_accounts(g: GameView, name: Seq<char>, balance: nat)
    requires
        g.wf(),
        g.pot + total_balance(g.players) + balance <= u64::MAX,
    ensures
        g.add_player(name, balance).wf(),
{
    let p = PlayerView::seated(name, balance);
    assert(g.players.push(p).drop_last() =~= g.players);
}

/// A blind keeps the accounts in order, posted or not.
pub proof fn lemma_post_blind_keeps_accounts(g: GameView, seat: int, amount: nat, big: bool)
    requires
        g.wf(),
        0 <= seat < g.players.len(),
    ensures
        g.post_blind(seat, amount, big).wf(),
        g.post_blind(seat, amount, big).players.len() == g.players.len(),
{
    match g.players[seat].bet(amount) {
        Ok(p) => {
            lemma_totals_after_update(g.players, seat, p);
            lemma_share_of_totals(g.players, seat);
        },
        Err(_) => {},
    }
}

/// Dealing cards moves no chips.
pub proof fn lemma_deal_round_keeps_accounts(g: GameView, upto: nat)
    requires
        g.wf(),
    ensures
        g.deal_round_upto(upto).wf(),
        g.deal_round_upto(upto).players.len() == g.players.len(),
{
    lemma_totals_of_same_chips(g.deal_round_upto(upto).players, g.players);
}

/// A hand that begins at a table whose stacks fit the chip type has its
/// accounts in order.
pub proof fn lemma_start_hand_keeps_accounts(g: GameView, fresh: Seq<Card>)
    requires
        g.stacks_fit(),
        g.players.len() >= 2,
    ensures
        g.start_hand(fresh).wf(),
        g.start_hand(fresh).players.len() == g.players.len(),
{
    let n = g.players.len();
    let button = crate::game_model::seat_after(n, g.dealer_position, 1);
    let cleared = GameView {
        deck: fresh,
        community_cards: Seq::empty(),
        pot: 0,
        current_bet: 0,
        current_round: crate::game::BettingRound::PreFlop,
        players: reset_all(g.players),
        dealer_position: button,
        ..g
    };
    lemma_totals_after_reset(g.players);
    assert(cleared.wf());
    let sb = crate::game_model::seat_after(n, button, 1) as int;
    let bb = crate::game_model::seat_after(n, button, 2) as int;
    let small = cleared.post_blind(sb, cleared.small_blind, false);
    lemma_post_blind_keeps_accounts(cleared, sb, cleared.small_blind, false);
    lemma_post_blind_keeps_accounts(small, bb, cleared.big_blind, true);
    let posted = cleared.post_blinds();
    assert(posted == small.post_blind(bb, cleared.big_blind, true));
    lemma_deal_round_keeps_accounts(posted, n);
    lemma_deal_round_keeps_accounts(posted.deal_round(), n);
}

/// Opening a street moves no chips.
pub proof fn lemma_streets_keep_accounts(g: GameView)
    requires
        g.wf(),
    ensures
        g.deal_flop().wf(),
        g.deal_turn().wf(),
        g.deal_river().wf(),
        g.advance_street().wf(),
        g.advance_street().pot == g.pot,
{
    lemma_totals_of_same_chips(clear_actions(g.players), g.players);
}

/// A hand only moves forward: moving on takes the game to the next street,
/// one step at a time, until the showdown, where it stays; and whatever a
/// player does leaves the street as it is.
pub proof fn lemma_streets_only_advance(g: GameView, seat: int, action: PlayerAction)
    ensures
        g.advance_street().current_round.spec_index() == if g.current_round.spec_index() < 4 {
            g.current_round.spec_index() + 1
        } else {
            4
        },
        g.player_action(seat, action) is Ok ==> g.player_action(seat, action)->Ok_0.current_round
            == g.current_round,
        g.take_turn(seat, action) is Ok ==> g.take_turn(seat, action)->Ok_0.current_round.spec_index()
            >= g.current_round.spec_index(),
{
}

/// Whatever a player does, the accounts stay in order: the pot grows by
/// what leaves the player's balance, and by nothing else.
pub proof fn lemma_player_action_keeps_accounts(g: GameView, seat: int, action: PlayerAction)
    requires
        g.wf(),
    ensures
        match g.player_action(seat, action) {
            Ok(after) => {
                &&& after.wf()
                &&& after.players.len() == g.players.len()
                &&& after.pot + total_balance(after.players) == g.pot + total_balance(g.players)
                &&& after.pot >= g.pot
            },
            Err(_) => true,
        },
{
    if 0 <= seat < g.players.len() {
        let p = g.players[seat];
        lemma_share_of_totals(g.players, seat);
        match g.player_action(seat, action) {
            Ok(after) => {
                let q = match action {
                    PlayerAction::Fold => p.fold(),
                    PlayerAction::Check => p.check(),
                    PlayerAction::Call => if g.current_bet > p.chips_in_play {
                        p.call((g.current_bet - p.chips_in_play) as nat)->Ok_0
                    } else {
                        p.check()
                    },
                    PlayerAction::Raise(amount) => p.raise(amount)->Ok_0,
                    PlayerAction::AllIn => p.all_in(),
                };
                let staked = g.players.update(seat, q);
                lemma_totals_after_update(g.players, seat, q);
                lemma_share_of_totals(staked, seat);
                lemma_totals_of_same_chips(clear_other_actions(staked, seat), staked);
            },
            Err(_) => {},
        }
    }
}

/// A betting round is over as soon as only one player is active, whatever
/// the chips in play and whoever has acted.
pub proof fn lemma_lone_player_ends_round(g: GameView, seat: int)
    requires
        g.is_active(seat),
        forall|i: int| g.is_active(i) ==> i == seat,
    ensures
        g.round_complete(),
{
}

/// A raise makes the others act again, and only them: it clears what every
/// other active player has on record, keeps the raise on the record of the
/// player who made it, and leaves the players who folded or are all-in as
/// they were.
pub proof fn lemma_raise_reopens_betting(g: GameView, seat: int, amount: u64)
    requires
        g.player_action(seat, PlayerAction::Raise(amount)) is Ok,
    ensures
        ({
            let after = g.player_action(seat, PlayerAction::Raise(amount))->Ok_0;
            &&& after.players.len() == g.players.len()
            &&& after.players[seat].action == Some(PlayerAction::Raise(amount))
            &&& after.current_bet == g.current_bet + amount
            &&& after.pot == g.pot + amount
            &&& forall|i: int|
                0 <= i < g.players.len() && i != seat && g.players[i].state == PlayerState::Active
                    ==> #[trigger] after.players[i] == g.players[i].clear_action()
            &&& forall|i: int|
                0 <= i < g.players.len() && i != seat && g.players[i].state != PlayerState::Active
                    ==> #[trigger] after.players[i] == g.players[i]
        }),
{
}

/// A call by a player who owes nothing is a check: the two leave the same
/// game behind, with the pot as it was and a check on record.
pub proof fn lemma_call_of_nothing_is_check(g: GameView, seat: int)
    requires
        0 <= seat < g.players.len(),
        g.current_bet <= g.players[seat].chips_in_play,
    ensures
        g.player_action(seat, PlayerAction::Call) == g.player_action(seat, PlayerAction::Check),
        g.player_action(seat, PlayerAction::Call) is Ok,
        g.player_action(seat, PlayerAction::Call)->Ok_0.pot == g.pot,
        g.player_action(seat, PlayerAction::Call)->Ok_0.players[seat].action == Some(
            PlayerAction::Check,
        ),
{
}

/// A refused action names its reason: a seat that is not there, a check
/// against an open bet, a call or raise beyond the balance, or a raise of
/// nothing. Folding and going all-in are never refused at a seat that is
/// there.
pub proof fn lemma_refusals(g: GameView, seat: int, action: PlayerAction)
    ensures
        g.player_action(seat, action) is Err <==> {
            ||| seat < 0
            ||| seat >= g.players.len()
            ||| action == PlayerAction::Check && g.current_bet > g.players[seat].chips_in_play
            ||| action == PlayerAction::Call && g.current_bet - g.players[seat].chips_in_play
                > g.players[seat].balance
            ||| action matches PlayerAction::Raise(amount) && (amount > g.players[seat].balance
                || amount == 0)
        },
{
}

/// Going round the table from any seat, every seat comes up within one
/// lap.
pub proof fn lemma_every_seat_comes_round(n: nat, from: nat, seat: nat)
    requires
        seat < n,
    ensures
        exists|k: nat| 1 <= k <= n && #[trigger] seat_after(n, from, k) == seat,
{
    let m = n as int;
    let gap = seat as int - from as int;
    let d = gap % m;
    let q = gap / m;
    vstd::arithmetic::div_mod::lemma_fundamental_div_mod(gap, m);
    let k = if d == 0 {
        m
    } else {
        d
    };
    let laps = if d == 0 {
        1 - q
    } else {
        -q
    };
    assert(from + k == laps * m + seat) by (nonlinear_arith)
        requires
            gap == m * q + d,
            gap == seat - from,
            k == if d == 0 {
                m
            } else {
                d
            },
            laps == if d == 0 {
                1 - q
            } else {
                -q
            },
    ;
    vstd::arithmetic::div_mod::lemma_fundamental_div_mod_converse(
        from + k,
        m,
        laps,
        seat as int,
    );
    assert(seat_after(n, from, k as nat) == seat);
}

/// The first active seat after the current one is the same whoever looks
/// for it: the turn passes to one seat and no other.
pub proof fn lemma_next_active_is_unique(g: GameView, a: nat, b: nat)
    requires
        g.is_next_active(a),
        g.is_next_active(b),
    ensures
        a == b,
{
    let n = g.players.len();
    let ka = choose|k: nat|
        {
            &&& 1 <= k <= n
            &&& a == #[trigger] seat_after(n, g.current_player, k)
            &&& g.is_active(a as int)
            &&& forall|j: nat|
                1 <= j < k ==> !g.is_active(#[trigger] seat_after(n, g.current_player, j) as int)
        };
    let kb = choose|k: nat|
        {
            &&& 1 <= k <= n
            &&& b == #[trigger] seat_after(n, g.current_player, k)
            &&& g.is_active(b as int)
            &&& forall|j: nat|
                1 <= j < k ==> !g.is_active(#[trigger] seat_after(n, g.current_player, j) as int)
        };
    if ka < kb {
        assert(!g.is_active(seat_after(n, g.current_player, ka) as int));
    } else if kb < ka {
        assert(!g.is_active(seat_after(n, g.current_player, kb) as int));
    }
}

/// The turn clock folds once and no more: after it folded for a player it
/// finds nothing to do for that player, whenever it runs out again.
pub proof fn lemma_auto_fold_fires_once(g: GameView, name: Seq<char>)
    requires
        g.turn_expired(name),
    ensures
        g.auto_fold(name).players[g.seat_of(name)->Some_0].state == PlayerState::Folded,
        !g.auto_fold(name).turn_expired(name),
        g.auto_fold(name).auto_fold(name) == g.auto_fold(name),
{
    g.names().index_of_first_ensures(name);
    let seat = g.seat_of(name)->Some_0;
    let after = g.auto_fold(name);
    assert(after.names() =~= g.names());
}

/// A turn clock that runs out for a player whose turn it no longer is, or
/// who has folded, or who has no seat, changes nothing.
pub proof fn lemma_stale_clock_does_nothing(g: GameView, name: Seq<char>)
    requires
        !g.turn_expired(name),
    ensures
        g.auto_fold(name) == g,
{
}

/// The turn clock moves no chips: the accounts stay in order.
pub proof fn lemma_auto_fold_keeps_accounts(g: GameView, name: Seq<char>)
    requires
        g.wf(),
    ensures
        g.auto_fold(name).wf(),
        g.auto_fold(name).pot == g.pot,
        g.auto_fold(name).players.len() == g.players.len(),
{
    if g.turn_expired(name) {
        g.names().index_of_first_ensures(name);
        lemma_player_action_keeps_accounts(g, g.seat_of(name)->Some_0, PlayerAction::Fold);
    }
}

/// A showdown has one winner: a seat that wins is the seat that wins.
pub proof fn lemma_winner_is_unique(g: GameView, seat: int)
    requires
        g.is_winner(seat),
    ensures
        g.winner() == Some(seat),
{
    let other = choose|other: int| g.is_winner(other);
    lemma_hand_order_flips(g.showdown_hand(seat), g.showdown_hand(other));
    assert(g.contends(seat) && g.contends(other));
}

/// Where nobody shows a hand, nobody wins.
pub proof fn lemma_no_hand_no_winner(g: GameView)
    requires
        forall|seat: int| !g.contends(seat),
    ensures
        g.winner() is None,
{
}

/// Nobody changes seats or names when the game moves on after an action.
pub proof fn lemma_settle_keeps_names(g: GameView)
    ensures
        g.settle().names() == g.names(),
        g.settle().players.len() == g.players.len(),
{
    assert(g.settle().names() =~= g.names());
}

/// Nobody changes seats or names when a player acts.
pub proof fn lemma_player_action_keeps_names(g: GameView, seat: int, action: PlayerAction)
    requires
        g.player_action(seat, action) is Ok,
    ensures
        g.player_action(seat, action)->Ok_0.names() == g.names(),
{
    assert(g.player_action(seat, action)->Ok_0.names() =~= g.names());
}

} // verus!
