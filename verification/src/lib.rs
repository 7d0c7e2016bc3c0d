//! The core of a headless Minecraft client: the binary codec, the framed
//! transport with its compression and encryption filters, the login state
//! machine, the tick pacing rule, the chunk-batch rate estimator, the
//! reading of server addresses and a brigadier-style command dispatcher.
//!
//! Every function here is verified against the contract written on it,
//! but for the few that call outside code: their contracts are taken on
//! trust, and their doc comments say what is claimed.

pub mod address;
pub mod brigadier;
pub mod buf;
pub mod chunk_batching;
pub mod client;
pub mod crypto;
pub mod frame;
pub mod game_profile;
pub mod indexing;
pub mod packets;
pub mod proxy;
pub mod raw_connection;
pub mod wire;
pub mod write;
