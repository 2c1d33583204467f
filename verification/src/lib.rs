//! A verified model of the card game Hanabi: the deck, the rules of play
//! and the per-player views of a running game, together with the
//! decisions of the game server and the small HTTP helpers around it.

pub mod deck;
pub mod game;
pub mod laws;
pub mod view;
pub mod server;
pub mod http;
pub mod request;
pub mod command;
