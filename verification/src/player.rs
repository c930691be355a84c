//! A player at a table: the chips behind, the chips in front, the hole
//! cards, and what the player did last.

use crate::card::Card;
use crate::error::GameError;
use vstd::prelude::*;

verus! {

/// What a player can do when it is their turn. A raise names the chips
/// that are put in on top of what the player has in play.
#[derive(Debug, Clone, Copy, PartialEq, Eq, Structural)]
pub enum PlayerAction {
    Fold,
    Check,
    Call,
    Raise(u64),
    AllIn,
}

/// Where a player stands in the current hand.
#[derive(Debug, Clone, Copy, PartialEq, Eq, Structural)]
pub enum PlayerState {
    Active,
    Folded,
    AllIn,
    SittingOut,
}

/// A participant of one table.
#[derive(Debug, Clone)]
pub struct Player {
    /// The name, which identifies the player.
    pub name: String,
    /// The chips that are not wagered.
    pub balance: u64,
    /// The player's own cards: none, or two once they are dealt.
    pub hole_cards: Vec<Card>,
    /// The chips committed to the pot in this hand.
    pub chips_in_play: u64,
    pub state: PlayerState,
    /// What the player did last in this betting round, if anything yet.
    pub action: Option<PlayerAction>,
}

/// A player as a mathematical value.
pub struct PlayerView {
    pub name: Seq<char>,
    pub balance: nat,
    pub hole_cards: Seq<Card>,
    pub chips_in_play: nat,
    pub state: PlayerState,
    pub action: Option<PlayerAction>,
}

impl View for Player {
    type V = PlayerView;

    open spec fn view(&self) -> PlayerView {
        PlayerView {
            name: self.name@,
            balance: self.balance as nat,
            hole_cards: self.hole_cards@,
            chips_in_play: self.chips_in_play as nat,
            state: self.state,
            action: self.action,
        }
    }
}

impl PlayerView {
    /// A player who has just sat down.
    pub open spec fn seated(name: Seq<char>, balance: nat) -> PlayerView {
        PlayerView {
            name,
            balance,
            hole_cards: Seq::empty(),
            chips_in_play: 0,
            state: PlayerState::Active,
            action: None,
        }
    }

    /// The player's chips, behind and in play together, fit the chip type.
    pub open spec fn chips_fit(self) -> bool {
        self.balance + self.chips_in_play <= u64::MAX
    }

    /// The player with one more hole card.
    pub open spec fn add_card(self, card: Card) -> PlayerView {
        PlayerView { hole_cards: self.hole_cards.push(card), ..self }
    }

    /// The player without hole cards.
    pub open spec fn clear_cards(self) -> PlayerView {
        PlayerView { hole_cards: Seq::empty(), ..self }
    }

    /// Moves `amount` chips from the balance into play. More than the
    /// balance holds is refused for want of funds, and a bet of nothing
    /// as no bet at all.
    pub open spec fn bet(self, amount: nat) -> Result<PlayerView, GameError> {
        if amount > self.balance {
            Err(GameError::InsufficientFunds)
        } else if amount == 0 {
            Err(GameError::InvalidAmount)
        } else {
            Ok(
                PlayerView {
                    balance: (self.balance - amount) as nat,
                    chips_in_play: self.chips_in_play + amount,
                    ..self
                },
            )
        }
    }

    /// The player out of the hand.
    pub open spec fn fold(self) -> PlayerView {
        PlayerView { state: PlayerState::Folded, action: Some(PlayerAction::Fold), ..self }
    }

    /// The player after a check.
    pub open spec fn check(self) -> PlayerView {
        PlayerView { action: Some(PlayerAction::Check), ..self }
    }

    /// The player after a call that costs `amount`.
    pub open spec fn call(self, amount: nat) -> Result<PlayerView, GameError> {
        match self.bet(amount) {
            Ok(p) => Ok(PlayerView { action: Some(PlayerAction::Call), ..p }),
            Err(e) => Err(e),
        }
    }

    /// The player after a raise of `amount`.
    pub open spec fn raise(self, amount: u64) -> Result<PlayerView, GameError> {
        match self.bet(amount as nat) {
            Ok(p) => Ok(PlayerView { action: Some(PlayerAction::Raise(amount)), ..p }),
            Err(e) => Err(e),
        }
    }

    /// The player with the whole balance in play.
    pub open spec fn all_in(self) -> PlayerView {
        PlayerView {
            balance: 0,
            chips_in_play: self.chips_in_play + self.balance,
            state: PlayerState::AllIn,
            action: Some(PlayerAction::AllIn),
            ..self
        }
    }

    /// The player after being paid `amount`: nothing is in play any more.
    pub open spec fn collect_winnings(self, amount: nat) -> PlayerView {
        PlayerView { balance: self.balance + amount, chips_in_play: 0, ..self }
    }

    /// The player as a new hand begins: no cards, nothing in play, active,
    /// and nothing done yet. The balance stays.
    pub open spec fn reset_for_new_hand(self) -> PlayerView {
        PlayerView {
            hole_cards: Seq::empty(),
            chips_in_play: 0,
            state: PlayerState::Active,
            action: None,
            ..self
        }
    }

    /// The player with no action on record.
    pub open spec fn clear_action(self) -> PlayerView {
        PlayerView { action: None, ..self }
    }
}

impl Player {
    /// A player who sits down with `balance` chips.
    pub fn new(name: String, balance: u64) -> (player: Player)
        ensures
            player@ == PlayerView::seated(name@, balance as nat),
    {
        Player {
            name,
            balance,
            hole_cards: Vec::new(),
            chips_in_play: 0,
            state: PlayerState::Active,
            action: None,
        }
    }

    /// Hands the player a hole card.
    pub fn add_card(&mut self, card: Card)
        ensures
            final(self)@ == old(self)@.add_card(card),
    {
        self.hole_cards.push(card);
    }

    /// Takes the hole cards away.
    pub fn clear_cards(&mut self)
        ensures
            final(self)@ == old(self)@.clear_cards(),
    {
        self.hole_cards.clear();
    }

    /// Moves `amount` chips from the balance into play and returns the
    /// amount. An amount above the balance or an amount of nothing is
    /// refused, and the player stays as they were.
    pub fn bet(&mut self, amount: u64) -> (moved: Result<u64, GameError>)
        requires
            old(self)@.chips_fit(),
        ensures
            match old(self)@.bet(amount as nat) {
                Ok(p) => moved == Ok::<u64, GameError>(amount) && final(self)@ == p,
                Err(e) => moved == Err::<u64, GameError>(e) && final(self)@ == old(self)@,
            },
            final(self)@.chips_fit(),
    {
        if amount > self.balance {
            return Err(GameError::InsufficientFunds);
        }
        if amount == 0 {
            return Err(GameError::InvalidAmount);
        }
        self.balance -= amount;
        self.chips_in_play += amount;
        Ok(amount)
    }

    /// Leaves the hand.
    pub fn fold(&mut self)
        ensures
            final(self)@ == old(self)@.fold(),
    {
        self.state = PlayerState::Folded;
        self.action = Some(PlayerAction::Fold);
    }

    /// Records a check.
    pub fn check(&mut self)
        ensures
            final(self)@ == old(self)@.check(),
    {
        self.action = Some(PlayerAction::Check);
    }

    /// Pays `amount` to stay in and records the call. Refused as a bet of
    /// that amount would be, and the player then stays as they were.
    pub fn call(&mut self, amount: u64) -> (moved: Result<u64, GameError>)
        requires
            old(self)@.chips_fit(),
        ensures
            match old(self)@.call(amount as nat) {
                Ok(p) => moved == Ok::<u64, GameError>(amount) && final(self)@ == p,
                Err(e) => moved == Err::<u64, GameError>(e) && final(self)@ == old(self)@,
            },
            final(self)@.chips_fit(),
    {
        match self.bet(amount) {
            Ok(_) => {
                self.action = Some(PlayerAction::Call);
                Ok(amount)
            },
            Err(e) => Err(e),
        }
    }

    /// Puts `amount` more chips in and records the raise. Refused as a bet
    /// of that amount would be, and the player then stays as they were.
    pub fn raise(&mut self, amount: u64) -> (moved: Result<u64, GameError>)
        requires
            old(self)@.chips_fit(),
        ensures
            match old(self)@.raise(amount) {
                Ok(p) => moved == Ok::<u64, GameError>(amount) && final(self)@ == p,
                Err(e) => moved == Err::<u64, GameError>(e) && final(self)@ == old(self)@,
            },
            final(self)@.chips_fit(),
    {
        match self.bet(amount) {
            Ok(_) => {
                self.action = Some(PlayerAction::Raise(amount));
                Ok(amount)
            },
            Err(e) => Err(e),
        }
    }

    /// Puts the whole balance in play and returns what that was.
    pub fn all_in(&mut self) -> (moved: u64)
        requires
            old(self)@.chips_fit(),
        ensures
            moved == old(self).balance,
            final(self)@ == old(self)@.all_in(),
            final(self)@.chips_fit(),
    {
        let amount = self.balance;
        self.balance = 0;
        self.chips_in_play += amount;
        self.state = PlayerState::AllIn;
        self.action = Some(PlayerAction::AllIn);
        amount
    }

    /// Pays the player `amount`; nothing of theirs is in play any more.
    pub fn collect_winnings(&mut self, amount: u64)
        requires
            old(self).balance + amount <= u64::MAX,
        ensures
            final(self)@ == old(self)@.collect_winnings(amount as nat),
    {
        self.balance += amount;
        self.chips_in_play = 0;
    }

    /// Makes the player ready for a new hand.
    pub fn reset_for_new_hand(&mut self)
        ensures
            final(self)@ == old(self)@.reset_for_new_hand(),
    {
        self.clear_cards();
        self.chips_in_play = 0;
        self.state = PlayerState::Active;
        self.action = None;
    }
}

} // verus!
