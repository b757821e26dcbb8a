//! Arkham Horror: The Card Game.

pub mod adapter;
pub mod models;
