use poker_engine::card::{Card, Rank, Suit};
use poker_engine::deck::Deck;
use poker_engine::error::GameError;
use poker_engine::game::{BettingRound, Game};
use poker_engine::player::{PlayerAction, PlayerState};
use poker_engine::turn::TurnOutcome;

fn card(rank: Rank, suit: Suit) -> Card {
    Card { rank, suit }
}

/// A deck that deals the given cards in the given order.
fn stacked(dealt_in_order: &[Card]) -> Deck {
    let mut cards: Vec<Card> = dealt_in_order.to_vec();
    cards.reverse();
    Deck::from_cards(cards)
}

fn table_of(n: usize, balance: u64) -> Game {
    let mut game = Game::new(5, 10);
    for i in 0..n {
        game.add_player(format!("player{}", i), balance);
    }
    game
}

fn heads_up() -> Game {
    let mut game = table_of(2, 100);
    assert_eq!(game.start_new_hand(), Ok(()));
    game
}

#[test]
fn new_game_is_empty_with_a_full_deck() {
    let game = Game::new(5, 10);
    assert!(game.players.is_empty());
    assert_eq!(game.deck.len(), 52);
    assert_eq!(game.current_player, 0);
    assert_eq!(game.current_round, BettingRound::PreFlop);
    assert!(game.community_cards.is_empty());
    assert_eq!(game.pot, 0);
    assert_eq!(game.current_bet, 0);
    assert_eq!(game.dealer_position, 0);
    assert_eq!(game.small_blind, 5);
    assert_eq!(game.big_blind, 10);
    assert!(game.active_players.is_empty());
    assert!(game.get_current_player().is_none());
}

#[test]
fn add_player_takes_the_next_seat() {
    let mut game = Game::new(5, 10);
    game.add_player("ann".to_string(), 100);
    game.add_player("bob".to_string(), 250);
    assert_eq!(game.players.len(), 2);
    assert_eq!(game.players[0].name, "ann");
    assert_eq!(game.players[1].name, "bob");
    assert_eq!(game.players[1].balance, 250);
    assert_eq!(game.players[1].state, PlayerState::Active);
    assert_eq!(game.pot, 0);
}

#[test]
fn a_hand_needs_two_players() {
    let mut game = Game::new(5, 10);
    assert_eq!(game.start_new_hand(), Err(GameError::InsufficientPlayers));
    game.add_player("ann".to_string(), 100);
    assert_eq!(game.start_new_hand(), Err(GameError::InsufficientPlayers));
    assert_eq!(game.players[0].balance, 100);
    assert!(game.players[0].hole_cards.is_empty());
    assert_eq!(game.dealer_position, 0);
    assert_eq!(game.pot, 0);
    assert_eq!(game.deck.len(), 52);
}

#[test]
fn two_players_start_a_hand() {
    let game = heads_up();
    assert_eq!(game.pot, 15);
    assert_eq!(game.get_pot(), 15);
    assert_eq!(game.dealer_position, 1);
    assert_eq!(game.players[0].balance, 95);
    assert_eq!(game.players[1].balance, 90);
    assert_eq!(game.players[0].chips_in_play, 5);
    assert_eq!(game.players[1].chips_in_play, 10);
    assert_eq!(game.current_bet, 10);
    assert!(game.community_cards.is_empty());
    assert!(game.get_community_cards().is_empty());
    assert_eq!(game.current_round, BettingRound::PreFlop);
    assert_eq!(game.players[0].hole_cards.len(), 2);
    assert_eq!(game.players[1].hole_cards.len(), 2);
    assert_eq!(game.deck.len(), 48);
    assert_eq!(game.current_player, 0);
    assert_eq!(game.active_players, vec![0, 1]);
    assert_eq!(game.players[0].action, None);
    assert_eq!(game.players[1].action, None);
    assert_eq!(game.get_current_player().map(|p| p.name.clone()), Some("player0".to_string()));
}

#[test]
fn call_then_check_ends_the_round_and_the_flop_is_dealt() {
    let mut game = heads_up();
    assert_eq!(game.player_action(0, PlayerAction::Call), Ok(()));
    assert_eq!(game.pot, 20);
    assert_eq!(game.players[0].chips_in_play, 10);
    assert_eq!(game.players[1].chips_in_play, 10);
    assert_eq!(game.players[0].balance, 90);
    assert_eq!(game.players[0].action, Some(PlayerAction::Call));
    assert!(!game.is_betting_round_complete());
    assert_eq!(game.player_action(1, PlayerAction::Check), Ok(()));
    assert!(game.is_betting_round_complete());
    game.deal_flop();
    assert_eq!(game.current_round, BettingRound::Flop);
    assert_eq!(game.community_cards.len(), 3);
    assert_eq!(game.get_community_cards().len(), 3);
    assert_eq!(game.current_bet, 0);
    assert_eq!(game.players[0].action, None);
    assert_eq!(game.players[1].action, None);
    assert_eq!(game.deck.len(), 44);
    assert_eq!(game.pot, 20);
    assert_eq!(game.players[0].chips_in_play, 10);
}

#[test]
fn turns_carry_the_hand_from_street_to_street() {
    let mut game = heads_up();
    assert_eq!(
        game.take_turn(0, PlayerAction::Call),
        Ok(TurnOutcome { round_ended: false, winner: None })
    );
    assert_eq!(game.current_player, 1);
    assert_eq!(game.current_round, BettingRound::PreFlop);
    assert_eq!(
        game.take_turn(1, PlayerAction::Check),
        Ok(TurnOutcome { round_ended: true, winner: None })
    );
    assert_eq!(game.current_round, BettingRound::Flop);
    assert_eq!(game.community_cards.len(), 3);
    assert_eq!(game.current_player, 1);
    assert_eq!(game.take_turn(1, PlayerAction::Check).unwrap().round_ended, false);
    assert_eq!(game.current_player, 0);
    assert_eq!(game.take_turn(0, PlayerAction::Check).unwrap().round_ended, true);
    assert_eq!(game.current_round, BettingRound::Turn);
    assert_eq!(game.community_cards.len(), 4);
    assert_eq!(game.take_turn(0, PlayerAction::Check).unwrap().round_ended, false);
    assert_eq!(game.take_turn(1, PlayerAction::Check).unwrap().round_ended, true);
    assert_eq!(game.current_round, BettingRound::River);
    assert_eq!(game.community_cards.len(), 5);
    assert_eq!(game.deck.len(), 40);
    assert_eq!(game.take_turn(1, PlayerAction::Check).unwrap().winner, None);
    let last = game.take_turn(0, PlayerAction::Check).unwrap();
    assert!(last.round_ended);
    assert!(last.winner == Some(0) || last.winner == Some(1));
    assert_eq!(game.current_round, BettingRound::Showdown);
    assert_eq!(game.pot, 20);
    assert_eq!(game.advance_street(), None);
    assert_eq!(game.current_round, BettingRound::Showdown);
}

#[test]
fn stacked_deck_deals_round_robin_from_the_top() {
    let order = [
        card(Rank::Ace, Suit::Spades),
        card(Rank::Two, Suit::Clubs),
        card(Rank::Three, Suit::Clubs),
        card(Rank::King, Suit::Spades),
        card(Rank::Seven, Suit::Hearts),
        card(Rank::Eight, Suit::Hearts),
        card(Rank::Four, Suit::Diamonds),
        card(Rank::Queen, Suit::Spades),
        card(Rank::Jack, Suit::Spades),
        card(Rank::Ten, Suit::Spades),
        card(Rank::Five, Suit::Diamonds),
        card(Rank::Nine, Suit::Clubs),
        card(Rank::Six, Suit::Diamonds),
        card(Rank::Two, Suit::Hearts),
    ];
    let mut game = table_of(3, 100);
    assert_eq!(game.start_new_hand_with(stacked(&order)), Ok(()));
    assert_eq!(game.dealer_position, 1);
    assert_eq!(game.players[2].chips_in_play, 5);
    assert_eq!(game.players[0].chips_in_play, 10);
    assert_eq!(game.players[1].chips_in_play, 0);
    assert_eq!(game.current_player, 1);
    assert_eq!(game.players[0].hole_cards, vec![order[0], order[3]]);
    assert_eq!(game.players[1].hole_cards, vec![order[1], order[4]]);
    assert_eq!(game.players[2].hole_cards, vec![order[2], order[5]]);
    assert_eq!(game.deck.len(), 8);
    game.deal_flop();
    assert_eq!(game.community_cards, vec![order[7], order[8], order[9]]);
    game.deal_turn();
    assert_eq!(game.community_cards.len(), 4);
    assert_eq!(game.community_cards[3], order[11]);
    assert_eq!(game.current_round, BettingRound::Turn);
    game.deal_river();
    assert_eq!(game.community_cards.len(), 5);
    assert_eq!(game.community_cards[4], order[13]);
    assert_eq!(game.current_round, BettingRound::River);
    assert_eq!(game.deck.len(), 0);
    assert_eq!(game.showdown(), Some(0));
    assert_eq!(game.current_round, BettingRound::Showdown);
}

#[test]
fn streets_are_dealt_in_their_own_round_only() {
    let mut game = heads_up();
    game.deal_turn();
    game.deal_river();
    assert_eq!(game.current_round, BettingRound::PreFlop);
    assert!(game.community_cards.is_empty());
    assert_eq!(game.deck.len(), 48);
    assert_eq!(game.current_bet, 10);
    game.deal_flop();
    game.deal_flop();
    game.deal_river();
    assert_eq!(game.current_round, BettingRound::Flop);
    assert_eq!(game.community_cards.len(), 3);
    game.deal_turn();
    game.deal_turn();
    game.deal_flop();
    assert_eq!(game.current_round, BettingRound::Turn);
    assert_eq!(game.community_cards.len(), 4);
    game.deal_river();
    game.deal_river();
    assert_eq!(game.current_round, BettingRound::River);
    assert_eq!(game.community_cards.len(), 5);
    assert_eq!(game.deck.len(), 40);
}

#[test]
fn a_short_deck_deals_as_far_as_it_lasts() {
    let order = [
        card(Rank::Ace, Suit::Spades),
        card(Rank::Two, Suit::Clubs),
        card(Rank::Three, Suit::Clubs),
    ];
    let mut game = table_of(2, 100);
    assert_eq!(game.start_new_hand_with(stacked(&order)), Ok(()));
    assert_eq!(game.players[0].hole_cards, vec![order[0], order[2]]);
    assert_eq!(game.players[1].hole_cards, vec![order[1]]);
    assert_eq!(game.deck.len(), 0);
    game.deal_flop();
    assert_eq!(game.current_round, BettingRound::Flop);
    assert!(game.community_cards.is_empty());
    assert_eq!(game.showdown(), None);
}

#[test]
fn a_blind_that_cannot_be_paid_is_skipped() {
    let mut game = Game::new(5, 10);
    game.add_player("rich".to_string(), 100);
    game.add_player("poor".to_string(), 7);
    assert_eq!(game.start_new_hand(), Ok(()));
    assert_eq!(game.players[0].balance, 95);
    assert_eq!(game.players[0].chips_in_play, 5);
    assert_eq!(game.players[1].balance, 7);
    assert_eq!(game.players[1].chips_in_play, 0);
    assert_eq!(game.pot, 5);
    assert_eq!(game.current_bet, 0);
    assert_eq!(game.players[1].state, PlayerState::Active);
}

#[test]
fn the_button_moves_on_with_every_hand() {
    let mut game = table_of(3, 100);
    assert_eq!(game.start_new_hand(), Ok(()));
    assert_eq!(game.dealer_position, 1);
    assert_eq!(game.current_player, 1);
    assert_eq!(game.pot, 15);
    assert_eq!(game.player_action(1, PlayerAction::Fold), Ok(()));
    assert_eq!(game.start_new_hand(), Ok(()));
    assert_eq!(game.dealer_position, 2);
    assert_eq!(game.current_player, 2);
    assert_eq!(game.pot, 15);
    assert_eq!(game.players[1].state, PlayerState::Active);
    assert_eq!(game.players[1].action, None);
    assert_eq!(game.players[0].chips_in_play, 5);
    assert_eq!(game.players[1].chips_in_play, 10);
    assert_eq!(game.players[2].chips_in_play, 0);
    assert_eq!(game.players[0].balance, 85);
    assert_eq!(game.players[1].balance, 90);
    assert_eq!(game.players[2].balance, 95);
    assert_eq!(game.players[0].hole_cards.len(), 2);
    assert_eq!(game.deck.len(), 46);
    assert_eq!(game.start_new_hand(), Ok(()));
    assert_eq!(game.dealer_position, 0);
    assert_eq!(game.current_player, 0);
}

#[test]
fn no_seat_no_action() {
    let mut game = heads_up();
    assert_eq!(game.player_action(2, PlayerAction::Fold), Err(GameError::InvalidPlayerIndex));
    assert_eq!(game.player_action(usize::MAX, PlayerAction::Check), Err(GameError::InvalidPlayerIndex));
    assert_eq!(game.take_turn(7, PlayerAction::Call), Err(GameError::InvalidPlayerIndex));
    assert_eq!(game.pot, 15);
    assert_eq!(game.current_player, 0);
}

#[test]
fn check_against_an_open_bet_is_refused() {
    let mut game = heads_up();
    assert_eq!(game.player_action(0, PlayerAction::Check), Err(GameError::IllegalCheck));
    assert_eq!(game.players[0].action, None);
    assert_eq!(game.pot, 15);
    assert_eq!(game.player_action(1, PlayerAction::Check), Ok(()));
    assert_eq!(game.players[1].action, Some(PlayerAction::Check));
    assert_eq!(game.pot, 15);
}

#[test]
fn call_beyond_the_balance_is_refused() {
    let mut game = table_of(2, 100);
    game.players[0].balance = 8;
    assert_eq!(game.start_new_hand(), Ok(()));
    assert_eq!(game.players[0].balance, 3);
    assert_eq!(game.player_action(0, PlayerAction::Call), Err(GameError::InsufficientFunds));
    assert_eq!(game.players[0].balance, 3);
    assert_eq!(game.players[0].chips_in_play, 5);
    assert_eq!(game.players[0].action, None);
    assert_eq!(game.pot, 15);
}

#[test]
fn call_of_nothing_is_a_check() {
    let mut called = heads_up();
    let mut checked = Game::new(5, 10);
    checked.add_player("player0".to_string(), 100);
    checked.add_player("player1".to_string(), 100);
    assert_eq!(checked.start_new_hand(), Ok(()));
    assert_eq!(called.player_action(1, PlayerAction::Call), Ok(()));
    assert_eq!(checked.player_action(1, PlayerAction::Check), Ok(()));
    assert_eq!(called.players[1].action, Some(PlayerAction::Check));
    assert_eq!(called.players[1].action, checked.players[1].action);
    assert_eq!(called.pot, 15);
    assert_eq!(called.pot, checked.pot);
    assert_eq!(called.players[1].balance, 90);
    assert_eq!(called.players[1].chips_in_play, checked.players[1].chips_in_play);
    assert_eq!(called.current_bet, checked.current_bet);
}

#[test]
fn raise_lifts_the_bet_and_reopens_the_betting() {
    let mut game = table_of(4, 100);
    assert_eq!(game.start_new_hand(), Ok(()));
    assert_eq!(game.dealer_position, 1);
    assert_eq!(game.player_action(0, PlayerAction::Call), Ok(()));
    assert_eq!(game.player_action(1, PlayerAction::Fold), Ok(()));
    assert_eq!(game.player_action(2, PlayerAction::AllIn), Ok(()));
    assert_eq!(game.current_bet, 100);
    assert_eq!(game.players[0].action, None);
    assert_eq!(game.player_action(0, PlayerAction::Check), Err(GameError::IllegalCheck));
    assert_eq!(game.player_action(3, PlayerAction::Call), Ok(()));
    assert_eq!(game.players[3].balance, 0);
    game.players[0].balance = 500;
    game.players[0].action = Some(PlayerAction::Call);
    let pot = game.pot;
    assert_eq!(game.player_action(0, PlayerAction::Raise(20)), Ok(()));
    assert_eq!(game.pot, pot + 20);
    assert_eq!(game.current_bet, 120);
    assert_eq!(game.players[0].balance, 480);
    assert_eq!(game.players[0].action, Some(PlayerAction::Raise(20)));
    assert_eq!(game.players[1].action, Some(PlayerAction::Fold));
    assert_eq!(game.players[1].state, PlayerState::Folded);
    assert_eq!(game.players[2].action, Some(PlayerAction::AllIn));
    assert_eq!(game.players[2].state, PlayerState::AllIn);
    assert_eq!(game.players[3].action, None);
    assert_eq!(game.players[3].state, PlayerState::Active);
}

#[test]
fn raise_is_refused_without_funds_or_amount() {
    let mut game = heads_up();
    assert_eq!(game.player_action(0, PlayerAction::Raise(96)), Err(GameError::InsufficientFunds));
    assert_eq!(game.player_action(0, PlayerAction::Raise(0)), Err(GameError::InvalidAmount));
    assert_eq!(game.pot, 15);
    assert_eq!(game.current_bet, 10);
    assert_eq!(game.players[0].balance, 95);
    assert_eq!(game.players[0].action, None);
    assert_eq!(game.player_action(0, PlayerAction::Raise(95)), Ok(()));
    assert_eq!(game.pot, 110);
    assert_eq!(game.current_bet, 105);
    assert_eq!(game.players[0].balance, 0);
    assert_eq!(game.players[0].chips_in_play, 100);
}

#[test]
fn all_in_below_the_bet_leaves_the_bet_alone() {
    let mut game = table_of(3, 100);
    game.players[1].balance = 4;
    assert_eq!(game.start_new_hand(), Ok(()));
    assert_eq!(game.current_bet, 10);
    assert_eq!(game.player_action(2, PlayerAction::Call), Ok(()));
    assert_eq!(game.player_action(1, PlayerAction::AllIn), Ok(()));
    assert_eq!(game.players[1].chips_in_play, 4);
    assert_eq!(game.players[1].balance, 0);
    assert_eq!(game.players[1].state, PlayerState::AllIn);
    assert_eq!(game.current_bet, 10);
    assert_eq!(game.pot, 24);
    assert_eq!(game.players[2].action, Some(PlayerAction::Call));
    assert_eq!(game.active_players, vec![0, 1, 2]);
}

#[test]
fn fold_leaves_the_pot_and_the_list_of_the_hand() {
    let mut game = table_of(3, 100);
    assert_eq!(game.start_new_hand(), Ok(()));
    assert_eq!(game.player_action(1, PlayerAction::Fold), Ok(()));
    assert_eq!(game.pot, 15);
    assert_eq!(game.players[1].state, PlayerState::Folded);
    assert_eq!(game.players[1].action, Some(PlayerAction::Fold));
    assert_eq!(game.active_players, vec![0, 2]);
    let names: Vec<String> = game.get_active_players().iter().map(|p| p.name.clone()).collect();
    assert_eq!(names, vec!["player0".to_string(), "player2".to_string()]);
    assert_eq!(game.player_action(2, PlayerAction::AllIn), Ok(()));
    assert_eq!(game.get_active_players().len(), 2);
}

#[test]
fn one_active_player_ends_the_round_whatever_the_chips() {
    let mut game = table_of(3, 100);
    assert_eq!(game.start_new_hand(), Ok(()));
    assert!(!game.is_betting_round_complete());
    assert_eq!(game.player_action(1, PlayerAction::Fold), Ok(()));
    assert!(!game.is_betting_round_complete());
    assert_eq!(game.player_action(2, PlayerAction::Fold), Ok(()));
    assert_eq!(game.players[0].chips_in_play, 10);
    assert_eq!(game.players[0].action, None);
    assert!(game.is_betting_round_complete());
    let mut other = table_of(3, 100);
    assert_eq!(other.start_new_hand(), Ok(()));
    assert_eq!(other.player_action(1, PlayerAction::AllIn), Ok(()));
    assert_eq!(other.player_action(2, PlayerAction::Fold), Ok(()));
    assert_eq!(other.players[0].chips_in_play, 10);
    assert_eq!(other.players[1].chips_in_play, 100);
    assert!(other.is_betting_round_complete());
    other.players[0].state = PlayerState::Folded;
    assert!(other.is_betting_round_complete());
}

#[test]
fn round_goes_on_until_all_have_acted_on_equal_chips() {
    let mut game = table_of(3, 100);
    assert_eq!(game.start_new_hand(), Ok(()));
    assert_eq!(game.player_action(1, PlayerAction::Call), Ok(()));
    assert_eq!(game.player_action(2, PlayerAction::Call), Ok(()));
    assert!(!game.is_betting_round_complete());
    assert_eq!(game.player_action(0, PlayerAction::Raise(10)), Ok(()));
    assert!(!game.is_betting_round_complete());
    assert_eq!(game.player_action(1, PlayerAction::Call), Ok(()));
    assert!(!game.is_betting_round_complete());
    assert_eq!(game.player_action(2, PlayerAction::Call), Ok(()));
    assert_eq!(game.players[0].chips_in_play, 20);
    assert_eq!(game.players[1].chips_in_play, 20);
    assert_eq!(game.players[2].chips_in_play, 20);
    assert!(game.is_betting_round_complete());
    assert_eq!(game.pot, 60);
    game.players[2].chips_in_play = 19;
    assert!(!game.is_betting_round_complete());
}

#[test]
fn next_player_skips_who_folded_or_is_all_in() {
    let mut game = table_of(5, 100);
    assert_eq!(game.start_new_hand(), Ok(()));
    assert_eq!(game.current_player, 4);
    assert_eq!(game.player_action(0, PlayerAction::Fold), Ok(()));
    assert_eq!(game.player_action(1, PlayerAction::AllIn), Ok(()));
    game.players[2].state = PlayerState::SittingOut;
    game.next_player();
    assert_eq!(game.current_player, 3);
    game.next_player();
    assert_eq!(game.current_player, 4);
    game.next_player();
    assert_eq!(game.current_player, 3);
    game.players[3].state = PlayerState::Folded;
    game.next_player();
    assert_eq!(game.current_player, 4);
    game.next_player();
    assert_eq!(game.current_player, 4);
}

#[test]
fn showdown_is_won_by_the_best_hand_and_by_the_lower_seat_on_a_tie() {
    let order = [
        card(Rank::Two, Suit::Clubs),
        card(Rank::Ace, Suit::Spades),
        card(Rank::Ace, Suit::Hearts),
        card(Rank::Seven, Suit::Diamonds),
        card(Rank::King, Suit::Spades),
        card(Rank::King, Suit::Hearts),
        card(Rank::Three, Suit::Clubs),
        card(Rank::Queen, Suit::Clubs),
        card(Rank::Jack, Suit::Diamonds),
        card(Rank::Nine, Suit::Clubs),
        card(Rank::Three, Suit::Diamonds),
        card(Rank::Five, Suit::Hearts),
        card(Rank::Three, Suit::Hearts),
        card(Rank::Four, Suit::Spades),
    ];
    let mut game = table_of(3, 100);
    assert_eq!(game.start_new_hand_with(stacked(&order)), Ok(()));
    game.deal_flop();
    game.deal_turn();
    game.deal_river();
    let mut tied = game.clone();
    assert_eq!(tied.showdown(), Some(1));
    let mut folded = game.clone();
    assert_eq!(folded.player_action(1, PlayerAction::Fold), Ok(()));
    assert_eq!(folded.showdown(), Some(2));
    assert_eq!(folded.current_round, BettingRound::Showdown);
    assert_eq!(folded.pot, 15);
    let mut alone = game.clone();
    assert_eq!(alone.player_action(1, PlayerAction::Fold), Ok(()));
    assert_eq!(alone.player_action(2, PlayerAction::Fold), Ok(()));
    assert_eq!(alone.showdown(), Some(0));
    assert_eq!(alone.player_action(0, PlayerAction::Fold), Ok(()));
    assert_eq!(alone.showdown(), None);
}

#[test]
fn turn_clock_folds_for_the_current_player_once() {
    let mut game = table_of(3, 100);
    assert_eq!(game.start_new_hand(), Ok(()));
    assert_eq!(game.current_player, 1);
    assert!(!game.auto_fold(&"player0".to_string()));
    assert!(!game.auto_fold(&"nobody".to_string()));
    assert_eq!(game.players[0].state, PlayerState::Active);
    assert!(game.auto_fold(&"player1".to_string()));
    assert_eq!(game.players[1].state, PlayerState::Folded);
    assert_eq!(game.players[1].action, Some(PlayerAction::Fold));
    assert_eq!(game.active_players, vec![0, 2]);
    assert_eq!(game.current_player, 1);
    assert_eq!(game.pot, 15);
    assert!(!game.auto_fold(&"player1".to_string()));
    assert!(!game.auto_fold(&"player1".to_string()));
    assert_eq!(game.seat_of(&"player2".to_string()), Some(2));
    assert_eq!(game.seat_of(&"player9".to_string()), None);
    assert_eq!(game.current_name(), Some("player1".to_string()));
}

#[test]
fn pot_is_what_the_players_have_in_play() {
    let mut game = table_of(4, 1000);
    assert_eq!(game.start_new_hand(), Ok(()));
    let moves = [
        (0, PlayerAction::Call),
        (1, PlayerAction::Raise(40)),
        (2, PlayerAction::Call),
        (3, PlayerAction::Fold),
        (0, PlayerAction::AllIn),
        (1, PlayerAction::Check),
        (2, PlayerAction::Raise(0)),
        (9, PlayerAction::Call),
        (2, PlayerAction::Call),
    ];
    for (seat, action) in moves {
        let before: u64 = game.pot + game.players.iter().map(|p| p.balance).sum::<u64>();
        let _ = game.player_action(seat, action);
        let in_play: u64 = game.players.iter().map(|p| p.chips_in_play).sum();
        let behind: u64 = game.players.iter().map(|p| p.balance).sum();
        assert_eq!(game.pot, in_play);
        assert_eq!(game.pot + behind, before);
        assert!(game.current_bet <= game.pot);
    }
    assert_eq!(game.pot + game.players.iter().map(|p| p.balance).sum::<u64>(), 4000);
}
