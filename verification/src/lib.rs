//! A Texas Hold'em engine: cards, a shuffled deck, the best-hand evaluator,
//! the betting-round state machine of one table, and the registry of tables
//! that a server shares between its connections.
//!
//! Every function carries a contract over a mathematical model of the data
//! it works on, and Verus proves each body against its contract.

pub mod audit;
pub mod card;
pub mod commands;
pub mod coordinator;
pub mod deck;
pub mod error;
pub mod game;
pub mod game_laws;
pub mod game_model;
pub mod hand;
pub mod hand_laws;
pub mod hand_model;
pub mod models;
pub mod player;
pub mod protocol;
pub mod turn;
