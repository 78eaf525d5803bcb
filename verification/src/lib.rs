//! Verified core of the Send2Me peer-to-peer transfer and folder-sync engine.

pub mod text;
pub mod paths;
pub mod chunking;
pub mod framing;
pub mod hashing;
pub mod receive;
pub mod transfers;
pub mod history;
pub mod bonds;
pub mod pairing;
pub mod hardware;
pub mod security;
pub mod manifest;
pub mod messages;
pub mod sweep;
pub mod drive;
pub mod devices;
