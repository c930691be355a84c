//! The betting engine as a state machine over mathematical values: what a
//! game is, and what each operation makes of it.

use crate::card::Card;
use crate::error::GameError;
use crate::game::BettingRound;
use crate::hand_model::{best_hand, hand_order, HandView};
use crate::player::{PlayerAction, PlayerState, PlayerView};
use vstd::prelude::*;

verus! {

/// The chips that the players hold back, all together.
pub open spec fn total_balance(players: Seq<PlayerView>) -> nat
    decreases players.len(),
{
    if players.len() == 0 {
        0
    } else {
        total_balance(players.drop_last()) + players.last().balance
    }
}

/// The chips that the players have in play, all together.
pub open spec fn total_in_play(players: Seq<PlayerView>) -> nat
    decreases players.len(),
{
    if players.len() == 0 {
        0
    } else {
        total_in_play(players.drop_last()) + players.last().chips_in_play
    }
}

/// The player still has a claim on the pot: active or all-in.
pub open spec fn in_hand(p: PlayerView) -> bool {
    p.state == PlayerState::Active || p.state == PlayerState::AllIn
}

/// The seats below `n` whose players are still in the hand, in rising
/// order.
pub open spec fn seats_in_hand(players: Seq<PlayerView>, n: nat) -> Seq<usize>
    decreases n,
{
    if n == 0 {
        Seq::empty()
    } else if in_hand(players[n - 1]) {
        seats_in_hand(players, (n - 1) as nat).push((n - 1) as usize)
    } else {
        seats_in_hand(players, (n - 1) as nat)
    }
}

/// Every player ready for a new hand.
pub open spec fn reset_all(players: Seq<PlayerView>) -> Seq<PlayerView> {
    Seq::new(players.len(), |i: int| players[i].reset_for_new_hand())
}

/// Every player with no action on record.
pub open spec fn clear_actions(players: Seq<PlayerView>) -> Seq<PlayerView> {
    Seq::new(players.len(), |i: int| players[i].clear_action())
}

/// The active players other than the one in `seat` with no action on
/// record: they have to act again. The player in `seat` and the players
/// who folded or are all-in stay as they are.
pub open spec fn clear_other_actions(players: Seq<PlayerView>, seat: int) -> Seq<PlayerView> {
    Seq::new(
        players.len(),
        |i: int|
            if i != seat && players[i].state == PlayerState::Active {
                players[i].clear_action()
            } else {
                players[i]
            },
    )
}

/// The seat `k` places after `seat` at a table of `n` seats, going round.
pub open spec fn seat_after(n: nat, seat: nat, k: nat) -> nat {
    (((seat + k) as int) % (n as int)) as nat
}

/// One game as a mathematical value.
pub struct GameView {
    /// The players in seat order.
    pub players: Seq<PlayerView>,
    /// The deck; its last card is on top.
    pub deck: Seq<Card>,
    /// The seat whose turn it is.
    pub current_player: nat,
    pub current_round: BettingRound,
    pub community_cards: Seq<Card>,
    /// The chips wagered in this hand.
    pub pot: nat,
    /// What a player must have in play to stay in.
    pub current_bet: nat,
    pub dealer_position: nat,
    pub small_blind: nat,
    pub big_blind: nat,
    /// The seats that were in the hand when they were last looked up.
    pub active_players: Seq<usize>,
}

impl GameView {
    /// The chips that the players hold back fit the chip type together.
    /// Without that, a pot could not hold what the players may wager.
    pub open spec fn stacks_fit(self) -> bool {
        total_balance(self.players) <= u64::MAX
    }

    /// The accounts of a hand are in order: the pot holds what the players
    /// have put in play, the bet to match is no more than the pot, and all
    /// chips at the table together fit the chip type.
    pub open spec fn wf(self) -> bool {
        &&& self.pot == total_in_play(self.players)
        &&& self.current_bet <= self.pot
        &&& self.pot + total_balance(self.players) <= u64::MAX
    }

    /// A new game with the given blinds, nobody seated yet.
    pub open spec fn fresh(small_blind: nat, big_blind: nat, deck: Seq<Card>) -> GameView {
        GameView {
            players: Seq::empty(),
            deck,
            current_player: 0,
            current_round: BettingRound::PreFlop,
            community_cards: Seq::empty(),
            pot: 0,
            current_bet: 0,
            dealer_position: 0,
            small_blind,
            big_blind,
            active_players: Seq::empty(),
        }
    }

    /// The game with one more player, in the next free seat.
    pub open spec fn add_player(self, name: Seq<char>, balance: nat) -> GameView {
        GameView { players: self.players.push(PlayerView::seated(name, balance)), ..self }
    }

    /// The game after the player in `seat` was asked for a blind of
    /// `amount`. A player who cannot pay it posts nothing, and the game goes
    /// on as it is. A posted big blind sets the bet to match.
    pub open spec fn post_blind(self, seat: int, amount: nat, big: bool) -> GameView {
        match self.players[seat].bet(amount) {
            Ok(p) => GameView {
                players: self.players.update(seat, p),
                pot: self.pot + amount,
                current_bet: if big {
                    amount
                } else {
                    self.current_bet
                },
                ..self
            },
            Err(_) => self,
        }
    }

    /// The game after the blinds: the small blind from the seat after the
    /// dealer, then the big blind from the seat after that.
    pub open spec fn post_blinds(self) -> GameView {
        let n = self.players.len();
        self.post_blind(
            seat_after(n, self.dealer_position, 1) as int,
            self.small_blind,
            false,
        ).post_blind(seat_after(n, self.dealer_position, 2) as int, self.big_blind, true)
    }

    /// The game after the first `upto` seats were offered a card each, from
    /// seat 0 on and from the top of the deck down, as long as it lasts.
    pub open spec fn deal_round_upto(self, upto: nat) -> GameView {
        let k = if upto <= self.deck.len() {
            upto
        } else {
            self.deck.len()
        };
        GameView {
            players: Seq::new(
                self.players.len(),
                |i: int|
                    if i < k {
                        self.players[i].add_card(self.deck[self.deck.len() - 1 - i])
                    } else {
                        self.players[i]
                    },
            ),
            deck: self.deck.take(self.deck.len() - k),
            ..self
        }
    }

    /// The game after every seat was offered one card.
    pub open spec fn deal_round(self) -> GameView {
        self.deal_round_upto(self.players.len())
    }

    /// The game after the hole cards: two rounds of one card each.
    pub open spec fn deal_hole_cards(self) -> GameView {
        self.deal_round().deal_round()
    }

    /// The game with the seats that are in the hand looked up afresh.
    pub open spec fn update_active_players(self) -> GameView {
        GameView { active_players: seats_in_hand(self.players, self.players.len()), ..self }
    }

    /// The game as a hand begins with the deck `fresh`: pot, bet and board
    /// cleared, every player reset, the button moved on by one seat, the
    /// blinds posted, the hole cards dealt, and the turn with the third
    /// seat after the button.
    pub open spec fn start_hand(self, fresh: Seq<Card>) -> GameView {
        let n = self.players.len();
        let button = seat_after(n, self.dealer_position, 1);
        let cleared = GameView {
            deck: fresh,
            community_cards: Seq::empty(),
            pot: 0,
            current_bet: 0,
            current_round: BettingRound::PreFlop,
            players: reset_all(self.players),
            dealer_position: button,
            ..self
        };
        let dealt = cleared.post_blinds().deal_hole_cards().update_active_players();
        GameView { current_player: seat_after(n, button, 3), ..dealt }
    }

    /// The game with the top card of the deck gone, if there is one.
    pub open spec fn burn(self) -> GameView {
        if self.deck.len() > 0 {
            GameView { deck: self.deck.drop_last(), ..self }
        } else {
            self
        }
    }

    /// The game with the top card of the deck on the board, if there is
    /// one.
    pub open spec fn deal_community(self) -> GameView {
        if self.deck.len() > 0 {
            GameView {
                community_cards: self.community_cards.push(self.deck.last()),
                deck: self.deck.drop_last(),
                ..self
            }
        } else {
            self
        }
    }

    /// The game as a new street opens: nothing to match, and nobody has
    /// acted.
    pub open spec fn open_street(self, round: BettingRound) -> GameView {
        GameView {
            current_round: round,
            current_bet: 0,
            players: clear_actions(self.players),
            ..self
        }
    }

    /// After the flop: one card burnt and three dealt to the board. Only
    /// before the flop; in any other round the game stays as it is.
    pub open spec fn deal_flop(self) -> GameView {
        if self.current_round == BettingRound::PreFlop {
            self.burn().deal_community().deal_community().deal_community().open_street(
                BettingRound::Flop,
            )
        } else {
            self
        }
    }

    /// After the turn: one card burnt and one dealt to the board. Only on
    /// the flop; in any other round the game stays as it is.
    pub open spec fn deal_turn(self) -> GameView {
        if self.current_round == BettingRound::Flop {
            self.burn().deal_community().open_street(BettingRound::Turn)
        } else {
            self
        }
    }

    /// After the river: one card burnt and one dealt to the board. Only on
    /// the turn; in any other round the game stays as it is.
    pub open spec fn deal_river(self) -> GameView {
        if self.current_round == BettingRound::Turn {
            self.burn().deal_community().open_street(BettingRound::River)
        } else {
            self
        }
    }

    /// The game with `p` in `seat` and `amount` more chips in the pot.
    pub open spec fn with_stake(self, seat: int, p: PlayerView, amount: nat) -> GameView {
        GameView { players: self.players.update(seat, p), pot: self.pot + amount, ..self }
    }

    /// The game with the bet to match at `level`, set by the player in
    /// `seat`: the other active players have to act again.
    pub open spec fn with_bet(self, seat: int, level: nat) -> GameView {
        GameView {
            current_bet: level,
            players: clear_other_actions(self.players, seat),
            ..self
        }
    }

    /// What an action of the player in `seat` makes of the game, or why it
    /// is refused.
    ///
    /// - A fold takes the player out of the hand.
    /// - A check is refused while the player has less in play than the bet
    ///   to match.
    /// - A call pays what is missing to the bet to match; where nothing is
    ///   missing it is a check.
    /// - A raise of `amount` puts `amount` in and lifts the bet to match by
    ///   as much.
    /// - All-in puts the whole balance in, and lifts the bet to match to
    ///   what the player then has in play where that is more.
    pub open spec fn player_action(self, seat: int, action: PlayerAction) -> Result<
        GameView,
        GameError,
    > {
        if seat < 0 || seat >= self.players.len() {
            Err(GameError::InvalidPlayerIndex)
        } else {
            let p = self.players[seat];
            match action {
                PlayerAction::Fold => Ok(
                    self.with_stake(seat, p.fold(), 0).update_active_players(),
                ),
                PlayerAction::Check => if self.current_bet > p.chips_in_play {
                    Err(GameError::IllegalCheck)
                } else {
                    Ok(self.with_stake(seat, p.check(), 0))
                },
                PlayerAction::Call => if self.current_bet > p.chips_in_play {
                    let owed = (self.current_bet - p.chips_in_play) as nat;
                    match p.call(owed) {
                        Ok(q) => Ok(self.with_stake(seat, q, owed)),
                        Err(e) => Err(e),
                    }
                } else {
                    Ok(self.with_stake(seat, p.check(), 0))
                },
                PlayerAction::Raise(amount) => match p.raise(amount) {
                    Ok(q) => Ok(
                        self.with_stake(seat, q, amount as nat).with_bet(
                            seat,
                            self.current_bet + amount as nat,
                        ),
                    ),
                    Err(e) => Err(e),
                },
                PlayerAction::AllIn => {
                    let q = p.all_in();
                    let staked = self.with_stake(seat, q, p.balance);
                    if q.chips_in_play > self.current_bet {
                        Ok(staked.with_bet(seat, q.chips_in_play))
                    } else {
                        Ok(staked)
                    }
                },
            }
        }
    }

    /// The player in `seat` is active.
    pub open spec fn is_active(self, seat: int) -> bool {
        0 <= seat < self.players.len() && self.players[seat].state == PlayerState::Active
    }

    /// `seat` is the first active seat after the current one, going round.
    pub open spec fn is_next_active(self, seat: nat) -> bool {
        let n = self.players.len();
        exists|k: nat|
            {
                &&& 1 <= k <= n
                &&& seat == #[trigger] seat_after(n, self.current_player, k)
                &&& self.is_active(seat as int)
                &&& forall|j: nat|
                    1 <= j < k ==> !self.is_active(
                        #[trigger] seat_after(n, self.current_player, j) as int,
                    )
            }
    }

    /// No two players are active.
    pub open spec fn at_most_one_active(self) -> bool {
        forall|i: int, j: int| self.is_active(i) && self.is_active(j) ==> i == j
    }

    /// The betting round is over: at most one player is still active, or
    /// every active player has acted and all of them have the same chips in
    /// play. Players who folded or are all-in do not count.
    pub open spec fn round_complete(self) -> bool {
        ||| self.at_most_one_active()
        ||| {
            &&& forall|i: int| self.is_active(i) ==> (#[trigger] self.players[i]).action is Some
            &&& forall|i: int, j: int|
                self.is_active(i) && self.is_active(j) ==> (#[trigger] self.players[i]).chips_in_play
                    == (#[trigger] self.players[j]).chips_in_play
        }
    }
}

impl GameView {
    /// The first active seat after the current one, going round.
    pub open spec fn next_active_seat(self) -> nat {
        choose|seat: nat| self.is_next_active(seat)
    }

    /// The game with the turn passed to the next active seat.
    pub open spec fn pass_turn(self) -> GameView {
        GameView { current_player: self.next_active_seat(), ..self }
    }

    /// The cards that the player in `seat` can make a hand of: the hole
    /// cards and the board.
    pub open spec fn showdown_cards(self, seat: int) -> Seq<Card> {
        self.players[seat].hole_cards + self.community_cards
    }

    /// The player in `seat` shows a hand: they did not fold, and their
    /// cards and the board make five cards at least.
    pub open spec fn contends(self, seat: int) -> bool {
        &&& 0 <= seat < self.players.len()
        &&& self.players[seat].state != PlayerState::Folded
        &&& self.showdown_cards(seat).len() >= 5
    }

    /// The best hand of the player in `seat`.
    pub open spec fn showdown_hand(self, seat: int) -> HandView {
        best_hand(self.showdown_cards(seat))
    }

    /// The player in `seat` wins the showdown: nobody who shows a hand has
    /// a better one, and everybody in a lower seat who shows one has a
    /// worse one. Of several equally good hands the one in the lowest seat
    /// wins; the pot is not split.
    pub open spec fn is_winner(self, seat: int) -> bool {
        &&& self.contends(seat)
        &&& forall|other: int| #[trigger]
            self.contends(other) ==> hand_order(
                self.showdown_hand(other),
                self.showdown_hand(seat),
            ) <= 0
        &&& forall|other: int| #[trigger]
            self.contends(other) && other < seat ==> hand_order(
                self.showdown_hand(other),
                self.showdown_hand(seat),
            ) < 0
    }

    /// The game at the showdown.
    pub open spec fn showdown(self) -> GameView {
        GameView { current_round: BettingRound::Showdown, ..self }
    }

    /// The game on its next street: the flop, the turn, the river, and
    /// after the river the showdown, where it stays.
    pub open spec fn advance_street(self) -> GameView {
        match self.current_round {
            BettingRound::PreFlop => self.deal_flop(),
            BettingRound::Flop => self.deal_turn(),
            BettingRound::Turn => self.deal_river(),
            BettingRound::River => self.showdown(),
            BettingRound::Showdown => self,
        }
    }

    /// What follows an action: where the betting round is over, the next
    /// street; where not, the turn of the next active seat.
    pub open spec fn settle(self) -> GameView {
        if self.round_complete() {
            self.advance_street()
        } else {
            self.pass_turn()
        }
    }

    /// What a turn of the player in `seat` makes of the game: the action,
    /// and what follows it. A refused action is refused for the whole turn.
    pub open spec fn take_turn(self, seat: int, action: PlayerAction) -> Result<
        GameView,
        GameError,
    > {
        match self.player_action(seat, action) {
            Ok(after) => Ok(after.settle()),
            Err(e) => Err(e),
        }
    }
}

impl GameView {
    /// The names of the players in seat order.
    pub open spec fn names(self) -> Seq<Seq<char>> {
        Seq::new(self.players.len(), |i: int| self.players[i].name)
    }

    /// The first seat whose player has that name.
    pub open spec fn seat_of(self, name: Seq<char>) -> Option<int> {
        self.names().index_of_first(name)
    }

    /// The name of the player whose turn it is, where the turn is with a
    /// seat that is there.
    pub open spec fn current_name(self) -> Option<Seq<char>> {
        if self.current_player < self.players.len() {
            Some(self.players[self.current_player as int].name)
        } else {
            None
        }
    }

    /// The turn clock of the player `name` has something to do when it
    /// runs out: the player has a seat, the turn is still theirs, and they
    /// have not folded yet.
    pub open spec fn turn_expired(self, name: Seq<char>) -> bool {
        &&& self.seat_of(name) is Some
        &&& self.current_name() == Some(name)
        &&& self.players[self.seat_of(name)->Some_0].state != PlayerState::Folded
    }

    /// The game after the turn clock of the player `name` ran out: the
    /// player folded where the clock had something to do, and nothing
    /// happened where it had not.
    pub open spec fn auto_fold(self, name: Seq<char>) -> GameView {
        if self.turn_expired(name) {
            self.player_action(self.seat_of(name)->Some_0, PlayerAction::Fold)->Ok_0
        } else {
            self
        }
    }
}

impl GameView {
    /// The seat that wins the showdown, if anybody shows a hand.
    pub open spec fn winner(self) -> Option<int> {
        if exists|seat: int| self.is_winner(seat) {
            Some(choose|seat: int| self.is_winner(seat))
        } else {
            None
        }
    }

    /// The seat that wins the showdown which moving on from this state
    /// leads to: there is one where the game is on the river and somebody
    /// shows a hand.
    pub open spec fn street_winner(self) -> Option<int> {
        if self.current_round == BettingRound::River {
            self.winner()
        } else {
            None
        }
    }

    /// The seat that wins the showdown which a betting round that is over
    /// on the river leads to.
    pub open spec fn settled_winner(self) -> Option<int> {
        if self.round_complete() {
            self.street_winner()
        } else {
            None
        }
    }
}

} // verus!
