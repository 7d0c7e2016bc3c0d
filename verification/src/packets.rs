//! The packets that the client reads and writes, by protocol state.

pub mod config;
pub mod game;
pub mod login;
pub mod serverbound;
