pub mod action;
pub mod card;
pub mod deck;
pub mod engine;
pub mod error;
pub mod hand;
pub mod player;
pub mod player_state;
pub mod rank;
pub mod state;
pub mod util;
