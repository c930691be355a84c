//! The betting engine of one table: the players, the pot, the streets, and
//! the rules for what a player may do.

use crate::card::Card;
use crate::deck::{is_full_deck, Deck};
use crate::error::GameError;
use crate::game_laws::{
    lemma_every_seat_comes_round, lemma_player_action_keeps_accounts,
    lemma_post_blind_keeps_accounts, lemma_share_of_totals, lemma_start_hand_keeps_accounts,
    lemma_streets_keep_accounts, lemma_totals_after_reset,
};
use crate::game_model::{
    clear_actions, clear_other_actions, reset_all, seat_after, seats_in_hand, GameView,
};
use crate::player::{Player, PlayerAction, PlayerState, PlayerView};
use vstd::prelude::*;

verus! {

/// The streets of a hand, in the order they are played.
#[derive(Debug, Clone, Copy, PartialEq, Eq, Structural)]
pub enum BettingRound {
    PreFlop,
    Flop,
    Turn,
    River,
    Showdown,
}

impl BettingRound {
    /// The place of a street in the order of play, from 0 before the flop
    /// to 4 at the showdown.
    pub open spec fn spec_index(self) -> int {
        match self {
            BettingRound::PreFlop => 0,
            BettingRound::Flop => 1,
            BettingRound::Turn => 2,
            BettingRound::River => 3,
            BettingRound::Showdown => 4,
        }
    }
}

/// One game: the state of the hand that is played at a table.
#[derive(Debug, Clone)]
pub struct Game {
    /// The players in seat order.
    pub players: Vec<Player>,
    pub deck: Deck,
    /// The seat whose turn it is.
    pub current_player: usize,
    pub current_round: BettingRound,
    pub community_cards: Vec<Card>,
    /// The chips wagered in this hand.
    pub pot: u64,
    /// What a player must have in play to stay in.
    pub current_bet: u64,
    pub dealer_position: usize,
    pub small_blind: u64,
    pub big_blind: u64,
    /// The seats that were in the hand when they were last looked up.
    pub active_players: Vec<usize>,
}

/// The players as mathematical values, seat by seat.
pub open spec fn views(players: Seq<Player>) -> Seq<PlayerView> {
    Seq::new(players.len(), |i: int| players[i]@)
}

impl View for Game {
    type V = GameView;

    open spec fn view(&self) -> GameView {
        GameView {
            players: views(self.players@),
            deck: self.deck@,
            current_player: self.current_player as nat,
            current_round: self.current_round,
            community_cards: self.community_cards@,
            pot: self.pot as nat,
            current_bet: self.current_bet as nat,
            dealer_position: self.dealer_position as nat,
            small_blind: self.small_blind as nat,
            big_blind: self.big_blind as nat,
            active_players: self.active_players@,
        }
    }
}

/// The seat `k` places after `seat` at a table of `n` seats, going round.
fn seat_at(n: usize, seat: usize, k: usize) -> (next: usize)
    requires
        n > 0,
    ensures
        next == seat_after(n as nat, seat as nat, k as nat),
        next < n,
{
    ((seat as u128 + k as u128) % (n as u128)) as usize
}

impl Game {
    /// A game with the given blinds, a full shuffled deck, and nobody
    /// seated yet.
    pub fn new(small_blind: u64, big_blind: u64) -> (game: Game)
        ensures
            game@ == GameView::fresh(small_blind as nat, big_blind as nat, game.deck@),
            is_full_deck(game.deck@),
            game@.wf(),
    {
        let game = Game {
            players: Vec::new(),
            deck: Deck::new_shuffled(),
            current_player: 0,
            current_round: BettingRound::PreFlop,
            community_cards: Vec::new(),
            pot: 0,
            current_bet: 0,
            dealer_position: 0,
            small_blind,
            big_blind,
            active_players: Vec::new(),
        };
        assert(game@.players =~= Seq::empty());
        game
    }

    /// Seats a player with `balance` chips in the next free seat.
    pub fn add_player(&mut self, name: String, balance: u64)
        ensures
            final(self)@ == old(self)@.add_player(name@, balance as nat),
    {
        let player = Player::new(name, balance);
        self.players.push(player);
        assert(self@.players =~= old(self)@.players.push(PlayerView::seated(name@, balance as nat)));
    }

    /// Makes every player ready for a new hand.
    fn reset_players(&mut self)
        ensures
            final(self)@ == (GameView { players: reset_all(old(self)@.players), ..old(self)@ }),
    {
        let n = self.players.len();
        let mut i: usize = 0;
        while i < n
            invariant
                i <= n,
                n == self.players@.len(),
                n == old(self).players@.len(),
                forall|j: int| 0 <= j < i ==> (#[trigger] self.players@[j])@ == old(
                    self,
                ).players@[j]@.reset_for_new_hand(),
                forall|j: int| i <= j < n ==> (#[trigger] self.players@[j]) == old(self).players@[j],
                self.deck == old(self).deck,
                self.current_player == old(self).current_player,
                self.current_round == old(self).current_round,
                self.community_cards == old(self).community_cards,
                self.pot == old(self).pot,
                self.current_bet == old(self).current_bet,
                self.dealer_position == old(self).dealer_position,
                self.small_blind == old(self).small_blind,
                self.big_blind == old(self).big_blind,
                self.active_players == old(self).active_players,
            decreases n - i,
        {
            self.players[i].reset_for_new_hand();
            i += 1;
        }
        assert(self@.players =~= reset_all(old(self)@.players));
    }

    /// Takes what every player has on record away.
    fn reset_player_actions(&mut self)
        ensures
            final(self)@ == (GameView { players: clear_actions(old(self)@.players), ..old(self)@ }),
    {
        let n = self.players.len();
        let mut i: usize = 0;
        while i < n
            invariant
                i <= n,
                n == self.players@.len(),
                n == old(self).players@.len(),
                forall|j: int| 0 <= j < i ==> (#[trigger] self.players@[j])@ == old(
                    self,
                ).players@[j]@.clear_action(),
                forall|j: int| i <= j < n ==> (#[trigger] self.players@[j]) == old(self).players@[j],
                self.deck == old(self).deck,
                self.current_player == old(self).current_player,
                self.current_round == old(self).current_round,
                self.community_cards == old(self).community_cards,
                self.pot == old(self).pot,
                self.current_bet == old(self).current_bet,
                self.dealer_position == old(self).dealer_position,
                self.small_blind == old(self).small_blind,
                self.big_blind == old(self).big_blind,
                self.active_players == old(self).active_players,
            decreases n - i,
        {
            self.players[i].action = None;
            i += 1;
        }
        assert(self@.players =~= clear_actions(old(self)@.players));
    }

    /// Takes away what the active players other than the one in `seat`
    /// have on record.
    fn reset_other_player_actions(&mut self, seat: usize)
        ensures
            final(self)@ == (GameView {
                players: clear_other_actions(old(self)@.players, seat as int),
                ..old(self)@
            }),
    {
        let n = self.players.len();
        let mut i: usize = 0;
        while i < n
            invariant
                i <= n,
                n == self.players@.len(),
                n == old(self).players@.len(),
                forall|j: int| 0 <= j < i ==> (#[trigger] self.players@[j])@ == clear_other_actions(
                    old(self)@.players,
                    seat as int,
                )[j],
                forall|j: int| i <= j < n ==> (#[trigger] self.players@[j]) == old(self).players@[j],
                self.deck == old(self).deck,
                self.current_player == old(self).current_player,
                self.current_round == old(self).current_round,
                self.community_cards == old(self).community_cards,
                self.pot == old(self).pot,
                self.current_bet == old(self).current_bet,
                self.dealer_position == old(self).dealer_position,
                self.small_blind == old(self).small_blind,
                self.big_blind == old(self).big_blind,
                self.active_players == old(self).active_players,
            decreases n - i,
        {
            if i != seat && self.players[i].state == PlayerState::Active {
                self.players[i].action = None;
            }
            i += 1;
        }
        assert(self@.players =~= clear_other_actions(old(self)@.players, seat as int));
    }

    /// Looks up afresh which seats are in the hand.
    fn update_active_players(&mut self)
        ensures
            final(self)@ == old(self)@.update_active_players(),
    {
        self.active_players.clear();
        let n = self.players.len();
        let mut i: usize = 0;
        while i < n
            invariant
                i <= n,
                n == self.players@.len(),
                self.players == old(self).players,
                self.active_players@ == seats_in_hand(old(self)@.players, i as nat),
                self.deck == old(self).deck,
                self.current_player == old(self).current_player,
                self.current_round == old(self).current_round,
                self.community_cards == old(self).community_cards,
                self.pot == old(self).pot,
                self.current_bet == old(self).current_bet,
                self.dealer_position == old(self).dealer_position,
                self.small_blind == old(self).small_blind,
                self.big_blind == old(self).big_blind,
            decreases n - i,
        {
            let state = self.players[i].state;
            if state == PlayerState::Active || state == PlayerState::AllIn {
                self.active_players.push(i);
            }
            i += 1;
        }
    }

    /// Asks the player in `seat` for a blind of `amount`. A player who
    /// cannot pay posts nothing.
    fn post_blind(&mut self, seat: usize, amount: u64, big: bool)
        requires
            old(self)@.wf(),
            seat < old(self).players@.len(),
        ensures
            final(self)@ == old(self)@.post_blind(seat as int, amount as nat, big),
            final(self)@.wf(),
            final(self).players@.len() == old(self).players@.len(),
    {
        proof {
            lemma_share_of_totals(self@.players, seat as int);
            lemma_post_blind_keeps_accounts(self@, seat as int, amount as nat, big);
        }
        match self.players[seat].bet(amount) {
            Ok(_) => {
                self.pot += amount;
                if big {
                    self.current_bet = amount;
                }
                assert(self@.players =~= old(self)@.players.update(
                    seat as int,
                    old(self)@.players[seat as int].bet(amount as nat)->Ok_0,
                ));
            },
            Err(_) => {
                assert(self@.players =~= old(self)@.players);
            },
        }
    }

    /// Posts the small blind from the seat after the dealer and the big
    /// blind from the seat after that.
    fn post_blinds(&mut self)
        requires
            old(self)@.wf(),
            old(self).players@.len() > 0,
        ensures
            final(self)@ == old(self)@.post_blinds(),
            final(self)@.wf(),
            final(self).players@.len() == old(self).players@.len(),
    {
        let n = self.players.len();
        let small_blind_pos = seat_at(n, self.dealer_position, 1);
        let big_blind_pos = seat_at(n, self.dealer_position, 2);
        let small_blind = self.small_blind;
        let big_blind = self.big_blind;
        self.post_blind(small_blind_pos, small_blind, false);
        self.post_blind(big_blind_pos, big_blind, true);
    }

    /// Offers every player one card, from seat 0 on, as long as the deck
    /// lasts.
    fn deal_round(&mut self)
        ensures
            final(self)@ == old(self)@.deal_round(),
    {
        let n = self.players.len();
        let mut i: usize = 0;
        proof {
            let want = self@.deal_round_upto(0);
            assert(self@.players =~= want.players);
            assert(self@.deck =~= want.deck);
        }
        while i < n
            invariant
                i <= n,
                n == self.players@.len(),
                n == old(self).players@.len(),
                self@ == old(self)@.deal_round_upto(i as nat),
            decreases n - i,
        {
            let ghost before = self@;
            let ghost seated = self.players@;
            match self.deck.draw() {
                Some(card) => {
                    self.players[i].add_card(card);
                },
                None => {},
            }
            proof {
                let start = old(self)@;
                let want = start.deal_round_upto((i + 1) as nat);
                assert(before.players[i as int] == start.players[i as int]);
                assert forall|j: int| 0 <= j < n implies self@.players[j] == want.players[j] by {
                    assert(before.players[j] == seated[j]@);
                    if j != i {
                        assert(self.players@[j] == seated[j]);
                    }
                }
                assert(self@.players =~= want.players);
                assert(self@.deck =~= want.deck);
            }
            i += 1;
        }
    }

    /// Deals two hole cards to every player, one at a time.
    fn deal_hole_cards(&mut self)
        ensures
            final(self)@ == old(self)@.deal_hole_cards(),
    {
        self.deal_round();
        self.deal_round();
    }
}

impl Game {
    /// Begins a new hand with the given deck. Refused where fewer than two
    /// players are seated; the game then stays as it is. Otherwise the pot,
    /// the bet and the board are cleared, every player is reset, the button
    /// moves on by one seat, the blinds are posted, two hole cards go to
    /// each player, and the turn is with the third seat after the button.
    pub fn start_new_hand_with(&mut self, deck: Deck) -> (started: Result<(), GameError>)
        requires
            old(self)@.stacks_fit(),
        ensures
            old(self).players@.len() < 2 ==> started == Err::<(), GameError>(
                GameError::InsufficientPlayers,
            ) && final(self)@ == old(self)@,
            old(self).players@.len() >= 2 ==> started is Ok && final(self)@ == old(self)@.start_hand(
                deck@,
            ),
            final(self)@.stacks_fit(),
            started is Ok ==> final(self)@.wf(),
    {
        let n = self.players.len();
        if n < 2 {
            return Err(GameError::InsufficientPlayers);
        }
        proof {
            lemma_start_hand_keeps_accounts(self@, deck@);
            lemma_totals_after_reset(self@.players);
        }
        self.deck = deck;
        self.community_cards.clear();
        self.pot = 0;
        self.current_bet = 0;
        self.current_round = BettingRound::PreFlop;
        self.reset_players();
        self.dealer_position = seat_at(n, self.dealer_position, 1);
        self.post_blinds();
        self.deal_hole_cards();
        self.update_active_players();
        self.current_player = seat_at(n, self.dealer_position, 3);
        Ok(())
    }

    /// Begins a new hand with a full deck in an order left to chance.
    /// Refused where fewer than two players are seated; the game then stays
    /// as it is.
    pub fn start_new_hand(&mut self) -> (started: Result<(), GameError>)
        requires
            old(self)@.stacks_fit(),
        ensures
            old(self).players@.len() < 2 ==> started == Err::<(), GameError>(
                GameError::InsufficientPlayers,
            ) && final(self)@ == old(self)@,
            old(self).players@.len() >= 2 ==> started is Ok && exists|fresh: Seq<Card>|
                is_full_deck(fresh) && final(self)@ == #[trigger] old(self)@.start_hand(fresh),
            final(self)@.stacks_fit(),
            started is Ok ==> final(self)@.wf(),
    {
        if self.players.len() < 2 {
            return Err(GameError::InsufficientPlayers);
        }
        let deck = Deck::new_shuffled();
        self.start_new_hand_with(deck)
    }

    /// Takes the top card off the deck and puts it aside.
    fn burn(&mut self)
        ensures
            final(self)@ == old(self)@.burn(),
    {
        let _ = self.deck.draw();
    }

    /// Puts the top card of the deck on the board.
    fn deal_community(&mut self)
        ensures
            final(self)@ == old(self)@.deal_community(),
    {
        match self.deck.draw() {
            Some(card) => {
                self.community_cards.push(card);
            },
            None => {},
        }
    }

    /// Opens the street `round`: nothing to match, nobody has acted.
    fn open_street(&mut self, round: BettingRound)
        ensures
            final(self)@ == old(self)@.open_street(round),
    {
        self.current_round = round;
        self.current_bet = 0;
        self.reset_player_actions();
    }

    /// Deals the flop: burns a card and puts three on the board. Does
    /// nothing in any round but the one before the flop.
    pub fn deal_flop(&mut self)
        ensures
            final(self)@ == old(self)@.deal_flop(),
            old(self)@.wf() ==> final(self)@.wf(),
    {
        proof {
            if self@.wf() {
                lemma_streets_keep_accounts(self@);
            }
        }
        if self.current_round == BettingRound::PreFlop {
            self.burn();
            self.deal_community();
            self.deal_community();
            self.deal_community();
            self.open_street(BettingRound::Flop);
        }
    }

    /// Deals the turn: burns a card and puts one on the board. Does
    /// nothing in any round but the flop.
    pub fn deal_turn(&mut self)
        ensures
            final(self)@ == old(self)@.deal_turn(),
            old(self)@.wf() ==> final(self)@.wf(),
    {
        proof {
            if self@.wf() {
                lemma_streets_keep_accounts(self@);
            }
        }
        if self.current_round == BettingRound::Flop {
            self.burn();
            self.deal_community();
            self.open_street(BettingRound::Turn);
        }
    }

    /// Deals the river: burns a card and puts one on the board. Does
    /// nothing in any round but the turn.
    pub fn deal_river(&mut self)
        ensures
            final(self)@ == old(self)@.deal_river(),
            old(self)@.wf() ==> final(self)@.wf(),
    {
        proof {
            if self@.wf() {
                lemma_streets_keep_accounts(self@);
            }
        }
        if self.current_round == BettingRound::Turn {
            self.burn();
            self.deal_community();
            self.open_street(BettingRound::River);
        }
    }

    /// Carries out what the player in `player_index` does. A refused
    /// action leaves the game as it was.
    pub fn player_action(&mut self, player_index: usize, action: PlayerAction) -> (done: Result<
        (),
        GameError,
    >)
        requires
            old(self)@.wf(),
        ensures
            match old(self)@.player_action(player_index as int, action) {
                Ok(after) => done is Ok && final(self)@ == after,
                Err(e) => done == Err::<(), GameError>(e) && final(self)@ == old(self)@,
            },
            final(self)@.wf(),
    {
        if player_index >= self.players.len() {
            return Err(GameError::InvalidPlayerIndex);
        }
        let ghost seat = player_index as int;
        let ghost before = self@;
        let ghost p = before.players[seat];
        proof {
            lemma_share_of_totals(before.players, seat);
            lemma_player_action_keeps_accounts(before, seat, action);
        }
        match action {
            PlayerAction::Fold => {
                self.players[player_index].fold();
                assert(self@.players =~= before.players.update(seat, p.fold()));
                self.update_active_players();
            },
            PlayerAction::Check => {
                if self.current_bet > self.players[player_index].chips_in_play {
                    return Err(GameError::IllegalCheck);
                }
                self.players[player_index].check();
                assert(self@.players =~= before.players.update(seat, p.check()));
            },
            PlayerAction::Call => {
                let in_play = self.players[player_index].chips_in_play;
                if self.current_bet > in_play {
                    let owed = self.current_bet - in_play;
                    match self.players[player_index].call(owed) {
                        Ok(_) => {
                            self.pot += owed;
                            assert(self@.players =~= before.players.update(
                                seat,
                                p.call(owed as nat)->Ok_0,
                            ));
                        },
                        Err(e) => {
                            assert(self@.players =~= before.players);
                            return Err(e);
                        },
                    }
                } else {
                    self.players[player_index].check();
                    assert(self@.players =~= before.players.update(seat, p.check()));
                }
            },
            PlayerAction::Raise(amount) => {
                match self.players[player_index].raise(amount) {
                    Ok(_) => {
                        self.pot += amount;
                        self.current_bet += amount;
                        assert(self@.players =~= before.players.update(seat, p.raise(amount)->Ok_0));
                        self.reset_other_player_actions(player_index);
                    },
                    Err(e) => {
                        assert(self@.players =~= before.players);
                        return Err(e);
                    },
                }
            },
            PlayerAction::AllIn => {
                let amount = self.players[player_index].all_in();
                self.pot += amount;
                assert(self@.players =~= before.players.update(seat, p.all_in()));
                let in_play = self.players[player_index].chips_in_play;
                if in_play > self.current_bet {
                    self.current_bet = in_play;
                    self.reset_other_player_actions(player_index);
                }
            },
        }
        Ok(())
    }
}

impl Game {
    /// Passes the turn to the next active seat, going round from the
    /// current one. Seats whose players folded or are all-in are skipped.
    /// Somebody has to be active, or the search would never end.
    pub fn next_player(&mut self)
        requires
            exists|i: int| old(self)@.is_active(i),
        ensures
            old(self)@.is_next_active(final(self).current_player as nat),
            final(self)@ == (GameView {
                current_player: final(self).current_player as nat,
                ..old(self)@
            }),
    {
        let n = self.players.len();
        let from = self.current_player;
        let ghost g = self@;
        let ghost witness = choose|i: int| g.is_active(i);
        let mut k: usize = 1;
        let mut seat = seat_at(n, from, 1);
        while self.players[seat].state != PlayerState::Active
            invariant
                n == self.players@.len(),
                n > 0,
                self@ == g,
                g.is_active(witness),
                1 <= k <= n,
                seat < n,
                seat == seat_after(n as nat, from as nat, k as nat),
                forall|j: nat|
                    1 <= j < k ==> !g.is_active(
                        #[trigger] seat_after(n as nat, from as nat, j) as int,
                    ),
            decreases n - k,
        {
            proof {
                lemma_every_seat_comes_round(n as nat, from as nat, witness as nat);
                let found = choose|j: nat|
                    1 <= j <= n && #[trigger] seat_after(n as nat, from as nat, j) == witness;
                assert(found > k);
            }
            k += 1;
            seat = seat_at(n, from, k);
        }
        self.current_player = seat;
        assert(g.is_active(seat as int));
        assert(seat == seat_after(g.players.len(), g.current_player, k as nat));
    }

    /// Whether the betting round is over: at most one player is still
    /// active, or every active player has acted and all of them have the
    /// same chips in play.
    pub fn is_betting_round_complete(&self) -> (complete: bool)
        ensures
            complete == self@.round_complete(),
            self@.at_most_one_active() ==> complete,
    {
        let n = self.players.len();
        let mut first: Option<usize> = None;
        let mut several = false;
        let mut all_acted = true;
        let mut all_level = true;
        let mut i: usize = 0;
        while i < n
            invariant
                i <= n,
                n == self.players@.len(),
                match first {
                    Some(f) => f < i && self@.is_active(f as int) && forall|j: int|
                        0 <= j < f ==> !self@.is_active(j),
                    None => forall|j: int| 0 <= j < i ==> !self@.is_active(j),
                },
                several == exists|j: int, l: int|
                    0 <= j < l < i && self@.is_active(j) && self@.is_active(l),
                all_acted == forall|j: int|
                    0 <= j < i && self@.is_active(j) ==> (#[trigger] self@.players[j]).action is Some,
                all_level == forall|j: int|
                    0 <= j < i && self@.is_active(j) ==> (#[trigger] self@.players[j]).chips_in_play
                        == self@.players[first->Some_0 as int].chips_in_play,
            decreases n - i,
        {
            assert(self@.players[i as int] == self.players@[i as int]@);
            let ghost g = self@;
            let ghost was_several = several;
            let ghost was_first = first;
            if self.players[i].state == PlayerState::Active {
                match first {
                    Some(f) => {
                        assert(self@.players[f as int] == self.players@[f as int]@);
                        several = true;
                        if self.players[i].chips_in_play != self.players[f].chips_in_play {
                            all_level = false;
                        }
                    },
                    None => {
                        first = Some(i);
                    },
                }
                if self.players[i].action.is_none() {
                    all_acted = false;
                }
            }
            proof {
                if several {
                    if was_several {
                        let (j, l) = choose|j: int, l: int|
                            0 <= j < l < i && g.is_active(j) && g.is_active(l);
                        assert(0 <= j < l < i + 1 && g.is_active(j) && g.is_active(l));
                    } else {
                        let f = was_first->Some_0 as int;
                        assert(0 <= f < i < i + 1 && g.is_active(f) && g.is_active(i as int));
                    }
                } else {
                    assert forall|j: int, l: int| 0 <= j < l < i + 1 implies !(g.is_active(j)
                        && g.is_active(l)) by {
                        if l < i {
                            assert(!(0 <= j < l < i && g.is_active(j) && g.is_active(l)));
                        }
                    }
                }
            }
            i += 1;
        }
        proof {
            let g = self@;
            assert(several == !g.at_most_one_active()) by {
                if several {
                    let (j, l) = choose|j: int, l: int|
                        0 <= j < l < n && g.is_active(j) && g.is_active(l);
                    assert(g.is_active(j) && g.is_active(l) && j != l);
                }
                if !g.at_most_one_active() {
                    let (j, l) = choose|j: int, l: int| g.is_active(j) && g.is_active(l) && j != l;
                    if j < l {
                        assert(0 <= j < l < n && g.is_active(j) && g.is_active(l));
                    } else {
                        assert(0 <= l < j < n && g.is_active(l) && g.is_active(j));
                    }
                }
            }
            if several {
                let f = first->Some_0 as int;
                assert(g.is_active(f));
                assert(all_level == forall|j: int, l: int|
                    g.is_active(j) && g.is_active(l) ==> (#[trigger] g.players[j]).chips_in_play
                        == (#[trigger] g.players[l]).chips_in_play);
                assert(all_acted == forall|j: int|
                    g.is_active(j) ==> (#[trigger] g.players[j]).action is Some);
            }
        }
        !several || (all_acted && all_level)
    }

    /// The chips wagered in this hand.
    pub fn get_pot(&self) -> (pot: u64)
        ensures
            pot == self.pot,
    {
        self.pot
    }

    /// The cards on the board.
    pub fn get_community_cards(&self) -> (board: &[Card])
        ensures
            board@ == self.community_cards@,
    {
        self.community_cards.as_slice()
    }

    /// The player whose turn it is, where the turn is with a seat that is
    /// there.
    pub fn get_current_player(&self) -> (player: Option<&Player>)
        ensures
            self.current_player < self.players@.len() ==> player == Some(
                &self.players@[self.current_player as int],
            ),
            self.current_player >= self.players@.len() ==> player is None,
    {
        if self.current_player < self.players.len() {
            Some(&self.players[self.current_player])
        } else {
            None
        }
    }

    /// The players who are still in the hand, active or all-in, in seat
    /// order.
    pub fn get_active_players(&self) -> (active: Vec<&Player>)
        ensures
            active@.len() == seats_in_hand(self@.players, self.players@.len() as nat).len(),
            forall|k: int|
                0 <= k < active@.len() ==> {
                    let seat = #[trigger] seats_in_hand(
                        self@.players,
                        self.players@.len() as nat,
                    )[k];
                    seat < self.players@.len() && *active@[k] == self.players@[seat as int]
                },
    {
        let n = self.players.len();
        let mut active: Vec<&Player> = Vec::new();
        let mut i: usize = 0;
        while i < n
            invariant
                i <= n,
                n == self.players@.len(),
                active@.len() == seats_in_hand(self@.players, i as nat).len(),
                forall|k: int|
                    0 <= k < active@.len() ==> {
                        let seat = #[trigger] seats_in_hand(self@.players, i as nat)[k];
                        seat < i && *active@[k] == self.players@[seat as int]
                    },
            decreases n - i,
        {
            assert(self@.players[i as int] == self.players@[i as int]@);
            let state = self.players[i].state;
            if state == PlayerState::Active || state == PlayerState::AllIn {
                active.push(&self.players[i]);
            }
            i += 1;
        }
        active
    }
}

} // verus!
