//! Reminders with an optional delivery time: the duration grammar, the ordered
//! record store with its windowed queries, and the polling daemon's decisions.

pub mod cli;
pub mod commands;
pub mod daemon;
pub mod db;
pub mod duration;
pub mod models;
pub mod time;
