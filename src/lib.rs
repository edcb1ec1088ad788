//! Engine for multi-party threshold-signing and key-generation ceremonies:
//! participant indexing, the messages of each protocol stage, the broadcast
//! round with its verification, the per-ceremony runner and the manager that
//! routes requests and peer messages to the live ceremonies, the wire
//! format of their messages, and the cleaning of key files.

pub mod primitives;
pub mod utils;
pub mod index_map;
pub mod messages;
pub mod stages;
pub mod verification;
pub mod broadcast;
pub mod codec;
pub mod runner;
pub mod keygen;
pub mod manager;
pub mod hex_file;
