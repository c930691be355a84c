//! What follows an action at the table: the street advances or the turn
//! passes, and after the river the hands are shown.

use crate::card::Card;
use crate::error::GameError;
use crate::game::{BettingRound, Game};
use crate::game_laws::{
    lemma_auto_fold_keeps_accounts, lemma_next_active_is_unique, lemma_no_hand_no_winner,
    lemma_winner_is_unique,
};
use crate::models::spelled_position;
use crate::hand::{evaluate_hand, EvaluatedHand};
use crate::hand_laws::{lemma_hand_order_chains, lemma_hand_order_flips, lemma_hand_order_reflexive};
use crate::hand_model::hand_order;
use crate::player::{PlayerAction, PlayerState};
use vstd::prelude::*;

verus! {

/// What a turn led to.
#[derive(Debug, Clone, Copy, PartialEq, Eq, Structural)]
pub struct TurnOutcome {
    /// The action ended the betting round, and the game moved on to the
    /// next street or to the showdown.
    pub round_ended: bool,
    /// The seat that won the showdown, where the turn led to one and
    /// somebody showed a hand.
    pub winner: Option<usize>,
}

impl Game {
    /// The cards that the player in `seat` can make a hand of.
    fn showdown_cards(&self, seat: usize) -> (cards: Vec<Card>)
        requires
            seat < self.players@.len(),
        ensures
            cards@ == self@.showdown_cards(seat as int),
    {
        let mut cards: Vec<Card> = Vec::new();
        let hole = &self.players[seat].hole_cards;
        let mut i: usize = 0;
        while i < hole.len()
            invariant
                i <= hole@.len(),
                cards@ == hole@.take(i as int),
            decreases hole@.len() - i,
        {
            cards.push(hole[i]);
            assert(hole@.take(i as int + 1) =~= hole@.take(i as int).push(hole@[i as int]));
            i += 1;
        }
        assert(hole@.take(i as int) =~= hole@);
        let mut j: usize = 0;
        while j < self.community_cards.len()
            invariant
                j <= self.community_cards@.len(),
                cards@ == hole@ + self.community_cards@.take(j as int),
            decreases self.community_cards@.len() - j,
        {
            cards.push(self.community_cards[j]);
            assert(self.community_cards@.take(j as int + 1) =~= self.community_cards@.take(
                j as int,
            ).push(self.community_cards@[j as int]));
            assert(hole@ + self.community_cards@.take(j as int + 1) =~= (hole@
                + self.community_cards@.take(j as int)).push(self.community_cards@[j as int]));
            j += 1;
        }
        assert(self.community_cards@.take(j as int) =~= self.community_cards@);
        assert(self@.players[seat as int] == self.players@[seat as int]@);
        cards
    }

    /// Shows the hands. Every player who did not fold and has five cards
    /// at least to choose from, hole cards and board together, shows their
    /// best hand. The best of these hands wins, and of several equally good
    /// ones the one in the lowest seat. Returns the winning seat, or nothing
    /// where nobody shows a hand. The pot stays where it is: paying the
    /// winner is left to the caller.
    pub fn showdown(&mut self) -> (winner: Option<usize>)
        ensures
            final(self)@ == old(self)@.showdown(),
            match winner {
                Some(seat) => old(self)@.is_winner(seat as int),
                None => forall|seat: int| !old(self)@.contends(seat),
            },
            spelled_position(winner) == old(self)@.winner(),
    {
        let n = self.players.len();
        let ghost g = self@;
        let mut best: Option<(usize, EvaluatedHand)> = None;
        let mut i: usize = 0;
        while i < n
            invariant
                i <= n,
                n == self.players@.len(),
                self@ == g,
                match best {
                    Some((seat, hand)) => {
                        &&& seat < i
                        &&& g.contends(seat as int)
                        &&& hand@ == g.showdown_hand(seat as int)
                        &&& forall|other: int|
                            0 <= other < i && #[trigger] g.contends(other) ==> hand_order(
                                g.showdown_hand(other),
                                hand@,
                            ) <= 0
                        &&& forall|other: int|
                            0 <= other < seat && #[trigger] g.contends(other) ==> hand_order(
                                g.showdown_hand(other),
                                hand@,
                            ) < 0
                    },
                    None => forall|other: int| 0 <= other < i ==> !g.contends(other),
                },
            decreases n - i,
        {
            assert(g.players[i as int] == self.players@[i as int]@);
            if self.players[i].state != PlayerState::Folded {
                let cards = self.showdown_cards(i);
                if cards.len() >= 5 {
                    let hand = evaluate_hand(cards.as_slice());
                    proof {
                        lemma_hand_order_reflexive(hand@);
                    }
                    best = match best {
                        Some((seat, held)) => {
                            if hand.order(&held) > 0 {
                                proof {
                                    lemma_hand_order_flips(hand@, held@);
                                    assert forall|other: int|
                                        0 <= other < i && #[trigger] g.contends(
                                            other,
                                        ) implies hand_order(g.showdown_hand(other), hand@) < 0 by {
                                        lemma_hand_order_chains(
                                            g.showdown_hand(other),
                                            held@,
                                            hand@,
                                        );
                                    }
                                }
                                Some((i, hand))
                            } else {
                                Some((seat, held))
                            }
                        },
                        None => Some((i, hand)),
                    };
                }
            }
            i += 1;
        }
        self.current_round = BettingRound::Showdown;
        match best {
            Some((seat, _)) => {
                proof {
                    lemma_winner_is_unique(g, seat as int);
                }
                Some(seat)
            },
            None => {
                proof {
                    lemma_no_hand_no_winner(g);
                }
                None
            },
        }
    }

    /// Moves the game on to its next street: deals the flop, the turn or
    /// the river, and after the river shows the hands. Returns the seat
    /// that won where hands were shown.
    pub fn advance_street(&mut self) -> (winner: Option<usize>)
        ensures
            final(self)@ == old(self)@.advance_street(),
            old(self)@.wf() ==> final(self)@.wf(),
            spelled_position(winner) == old(self)@.street_winner(),
            winner is Some ==> old(self)@.is_winner(winner->Some_0 as int),
    {
        match self.current_round {
            BettingRound::PreFlop => {
                self.deal_flop();
                None
            },
            BettingRound::Flop => {
                self.deal_turn();
                None
            },
            BettingRound::Turn => {
                self.deal_river();
                None
            },
            BettingRound::River => self.showdown(),
            BettingRound::Showdown => None,
        }
    }

    /// Plays one turn: carries out the action of the player in
    /// `player_index`, then moves the game on to the next street where the
    /// action ended the betting round, and passes the turn to the next
    /// active seat where it did not. A refused action leaves the game as it
    /// was.
    pub fn take_turn(&mut self, player_index: usize, action: PlayerAction) -> (done: Result<
        TurnOutcome,
        GameError,
    >)
        requires
            old(self)@.wf(),
        ensures
            match old(self)@.take_turn(player_index as int, action) {
                Ok(after) => {
                    let acted = old(self)@.player_action(player_index as int, action)->Ok_0;
                    &&& done is Ok
                    &&& final(self)@ == after
                    &&& done->Ok_0.round_ended == acted.round_complete()
                    &&& spelled_position(done->Ok_0.winner) == acted.settled_winner()
                    &&& done->Ok_0.winner is Some ==> acted.is_winner(done->Ok_0.winner->Some_0 as int)
                },
                Err(e) => done == Err::<TurnOutcome, GameError>(e) && final(self)@ == old(self)@,
            },
            final(self)@.wf(),
    {
        match self.player_action(player_index, action) {
            Ok(_) => {
                let ghost acted = self@;
                if self.is_betting_round_complete() {
                    let winner = self.advance_street();
                    Ok(TurnOutcome { round_ended: true, winner })
                } else {
                    proof {
                        let (a, b) = choose|a: int, b: int|
                            acted.is_active(a) && acted.is_active(b) && a != b;
                        assert(acted.is_active(a));
                    }
                    self.next_player();
                    proof {
                        lemma_next_active_is_unique(
                            acted,
                            self.current_player as nat,
                            acted.next_active_seat(),
                        );
                    }
                    Ok(TurnOutcome { round_ended: false, winner: None })
                }
            },
            Err(e) => Err(e),
        }
    }
}

impl Game {
    /// The first seat whose player has that name.
    pub fn seat_of(&self, name: &String) -> (found: Option<usize>)
        ensures
            found is Some <==> self@.seat_of(name@) is Some,
            found is Some ==> found->Some_0 == self@.seat_of(name@)->Some_0 && found->Some_0
                < self.players@.len() && self.players@[found->Some_0 as int].name@ == name@,
    {
        let ghost all = self@.names();
        let mut i: usize = 0;
        while i < self.players.len()
            invariant
                i <= self.players@.len(),
                all == self@.names(),
                forall|j: int| 0 <= j < i ==> all[j] != name@,
            decreases self.players@.len() - i,
        {
            if self.players[i].name == *name {
                assert(all[i as int] == name@);
                assert(all.contains(name@));
                proof {
                    all.index_of_first_ensures(name@);
                }
                return Some(i);
            }
            i += 1;
        }
        proof {
            all.index_of_first_ensures(name@);
            assert(!all.contains(name@));
        }
        None
    }

    /// What the turn clock of the player `name` does when it runs out. It
    /// folds for the player where the player has a seat, the turn is still
    /// theirs and they have not folded; it does nothing otherwise. Says
    /// whether it folded, so that the player is told once.
    pub fn auto_fold(&mut self, name: &String) -> (folded: bool)
        requires
            old(self)@.wf(),
        ensures
            folded == old(self)@.turn_expired(name@),
            final(self)@ == old(self)@.auto_fold(name@),
            final(self)@.wf(),
            !final(self)@.turn_expired(name@),
    {
        proof {
            lemma_auto_fold_keeps_accounts(self@, name@);
            if self@.turn_expired(name@) {
                crate::game_laws::lemma_auto_fold_fires_once(self@, name@);
            }
        }
        let seat = match self.seat_of(name) {
            Some(seat) => seat,
            None => {
                return false;
            },
        };
        if self.current_player >= self.players.len() {
            return false;
        }
        assert(self@.players[self.current_player as int] == self.players@[self.current_player as int]@);
        assert(self@.players[seat as int] == self.players@[seat as int]@);
        if self.players[self.current_player].name == *name && self.players[seat].state
            != PlayerState::Folded {
            let _ = self.player_action(seat, PlayerAction::Fold);
            true
        } else {
            false
        }
    }
}

} // verus!
