use poker_engine::game::Game;
use poker_engine::models::ServerState;
use poker_engine::player::{Player, PlayerAction, PlayerState};

#[test]
fn a_game_that_is_played_stays_in_order() {
    let mut game = Game::new(5, 10);
    assert!(game.is_well_formed());
    assert!(game.stacks_fit());
    assert!(!game.has_active_player());
    game.add_player("ann".to_string(), 100);
    game.add_player("bob".to_string(), 100);
    assert!(game.has_active_player());
    assert_eq!(game.total_balance(), Some(200));
    assert_eq!(game.total_in_play(), Some(0));
    assert_eq!(game.start_new_hand(), Ok(()));
    assert!(game.is_well_formed());
    assert_eq!(game.total_balance(), Some(185));
    assert_eq!(game.total_in_play(), Some(15));
    assert_eq!(game.player_action(0, PlayerAction::Raise(50)), Ok(()));
    assert_eq!(game.player_action(1, PlayerAction::AllIn), Ok(()));
    assert!(game.is_well_formed());
    assert_eq!(game.total_in_play(), Some(155));
    game.deal_flop();
    assert!(game.is_well_formed());
}

#[test]
fn accounts_out_of_order_are_found() {
    let mut game = Game::new(5, 10);
    game.add_player("ann".to_string(), 100);
    game.add_player("bob".to_string(), 100);
    assert_eq!(game.start_new_hand(), Ok(()));
    let mut pot_off = game.clone();
    pot_off.pot = 16;
    assert!(!pot_off.is_well_formed());
    let mut bet_high = game.clone();
    bet_high.current_bet = 16;
    assert!(!bet_high.is_well_formed());
    let mut too_rich = game.clone();
    too_rich.players[0].balance = u64::MAX - 15;
    assert!(!too_rich.is_well_formed());
    assert!(!too_rich.stacks_fit());
    assert_eq!(too_rich.total_balance(), None);
    too_rich.players[1].balance = 0;
    assert!(too_rich.stacks_fit());
    assert!(too_rich.is_well_formed());
    too_rich.players[1].balance = 1;
    assert!(too_rich.stacks_fit());
    assert!(!too_rich.is_well_formed());
    let mut in_play_off = game.clone();
    in_play_off.players[1].chips_in_play = u64::MAX;
    assert_eq!(in_play_off.total_in_play(), None);
    assert!(!in_play_off.is_well_formed());
}

#[test]
fn chips_of_a_player_fit_or_not() {
    let mut p = Player::new("ann".to_string(), u64::MAX);
    assert!(p.chips_fit());
    p.chips_in_play = 1;
    assert!(!p.chips_fit());
    p.balance = u64::MAX - 1;
    assert!(p.chips_fit());
}

#[test]
fn nobody_active_is_found() {
    let mut game = Game::new(5, 10);
    game.add_player("ann".to_string(), 100);
    game.add_player("bob".to_string(), 100);
    game.players[0].state = PlayerState::Folded;
    assert!(game.has_active_player());
    game.players[1].state = PlayerState::AllIn;
    assert!(!game.has_active_player());
}

#[test]
fn a_registry_with_doubles_is_out_of_order() {
    let mut state = ServerState::new();
    assert!(state.is_well_formed());
    assert!(state.register("ann".to_string()));
    assert!(state.register("bob".to_string()));
    assert!(state.create_table("main".to_string()));
    assert!(state.create_table("side".to_string()));
    state.join_table(&"ann".to_string(), &"main".to_string());
    state.join_table(&"bob".to_string(), &"main".to_string());
    assert!(state.is_well_formed());
    assert!(state.tables[0].is_well_formed());
    let mut twice = state.clone();
    twice.users[1].name = "ann".to_string();
    assert!(!twice.is_well_formed());
    let mut same_id = state.clone();
    same_id.tables[1].id = "main".to_string();
    assert!(!same_id.is_well_formed());
    let mut seated_twice = state.clone();
    seated_twice.tables[0].players.push("ann".to_string());
    assert!(!seated_twice.is_well_formed());
    assert!(!seated_twice.tables[0].is_well_formed());
    let mut pot_off = state.clone();
    pot_off.tables[0].game.as_mut().unwrap().pot = 1;
    assert!(!pot_off.is_well_formed());
}
