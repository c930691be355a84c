use poker_engine::card::{Card, Rank, Suit};
use poker_engine::error::GameError;
use poker_engine::player::{Player, PlayerAction, PlayerState};

#[test]
fn new_player_is_active_with_nothing_in_play() {
    let p = Player::new("ann".to_string(), 100);
    assert_eq!(p.name, "ann");
    assert_eq!(p.balance, 100);
    assert_eq!(p.chips_in_play, 0);
    assert!(p.hole_cards.is_empty());
    assert_eq!(p.state, PlayerState::Active);
    assert_eq!(p.action, None);
}

#[test]
fn bet_moves_chips_into_play() {
    let mut p = Player::new("ann".to_string(), 100);
    assert_eq!(p.bet(30), Ok(30));
    assert_eq!(p.balance, 70);
    assert_eq!(p.chips_in_play, 30);
    assert_eq!(p.action, None);
    assert_eq!(p.bet(70), Ok(70));
    assert_eq!(p.balance, 0);
    assert_eq!(p.chips_in_play, 100);
}

#[test]
fn bet_beyond_the_balance_is_refused() {
    let mut p = Player::new("ann".to_string(), 100);
    assert_eq!(p.bet(101), Err(GameError::InsufficientFunds));
    assert_eq!(p.balance, 100);
    assert_eq!(p.chips_in_play, 0);
}

#[test]
fn bet_of_nothing_is_refused() {
    let mut p = Player::new("ann".to_string(), 100);
    assert_eq!(p.bet(0), Err(GameError::InvalidAmount));
    assert_eq!(p.balance, 100);
    let mut broke = Player::new("bob".to_string(), 0);
    assert_eq!(broke.bet(0), Err(GameError::InvalidAmount));
    assert_eq!(broke.bet(1), Err(GameError::InsufficientFunds));
}

#[test]
fn call_and_raise_record_the_action() {
    let mut p = Player::new("ann".to_string(), 100);
    assert_eq!(p.call(10), Ok(10));
    assert_eq!(p.action, Some(PlayerAction::Call));
    assert_eq!(p.raise(25), Ok(25));
    assert_eq!(p.action, Some(PlayerAction::Raise(25)));
    assert_eq!(p.balance, 65);
    assert_eq!(p.chips_in_play, 35);
    assert_eq!(p.raise(66), Err(GameError::InsufficientFunds));
    assert_eq!(p.action, Some(PlayerAction::Raise(25)));
    assert_eq!(p.call(0), Err(GameError::InvalidAmount));
    assert_eq!(p.action, Some(PlayerAction::Raise(25)));
    assert_eq!(p.balance, 65);
}

#[test]
fn fold_and_check_touch_no_chips() {
    let mut p = Player::new("ann".to_string(), 100);
    p.check();
    assert_eq!(p.action, Some(PlayerAction::Check));
    assert_eq!(p.state, PlayerState::Active);
    p.fold();
    assert_eq!(p.action, Some(PlayerAction::Fold));
    assert_eq!(p.state, PlayerState::Folded);
    assert_eq!(p.balance, 100);
    assert_eq!(p.chips_in_play, 0);
}

#[test]
fn all_in_puts_the_whole_balance_in() {
    let mut p = Player::new("ann".to_string(), 100);
    assert_eq!(p.bet(40), Ok(40));
    assert_eq!(p.all_in(), 60);
    assert_eq!(p.balance, 0);
    assert_eq!(p.chips_in_play, 100);
    assert_eq!(p.state, PlayerState::AllIn);
    assert_eq!(p.action, Some(PlayerAction::AllIn));
}

#[test]
fn winnings_go_to_the_balance() {
    let mut p = Player::new("ann".to_string(), 100);
    assert_eq!(p.bet(40), Ok(40));
    p.collect_winnings(90);
    assert_eq!(p.balance, 150);
    assert_eq!(p.chips_in_play, 0);
}

#[test]
fn reset_keeps_the_balance_only() {
    let mut p = Player::new("ann".to_string(), 100);
    p.add_card(Card { rank: Rank::Ace, suit: Suit::Spades });
    p.add_card(Card { rank: Rank::King, suit: Suit::Spades });
    assert_eq!(p.hole_cards.len(), 2);
    assert_eq!(p.bet(40), Ok(40));
    p.fold();
    p.reset_for_new_hand();
    assert!(p.hole_cards.is_empty());
    assert_eq!(p.balance, 60);
    assert_eq!(p.chips_in_play, 0);
    assert_eq!(p.state, PlayerState::Active);
    assert_eq!(p.action, None);
    p.add_card(Card { rank: Rank::Two, suit: Suit::Clubs });
    p.clear_cards();
    assert!(p.hole_cards.is_empty());
}

#[test]
fn every_refusal_has_its_message() {
    assert_eq!(
        GameError::InsufficientPlayers.message(),
        "Need at least 2 players to start a hand"
    );
    assert_eq!(GameError::InvalidPlayerIndex.message(), "Invalid player index");
    assert_eq!(GameError::IllegalCheck.message(), "Cannot check when there's a bet to call");
    assert_eq!(GameError::InsufficientFunds.message(), "Insufficient funds");
    assert_eq!(GameError::InvalidAmount.message(), "Bet amount must be positive");
}
