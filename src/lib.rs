//! Session engine of a daily two-character word guessing game.

pub mod command;
pub mod config;
pub mod day;
pub mod leaderboard;
pub mod protocol;
pub mod registry;
pub mod session;
pub mod text;
