//! Orb: peer discovery, handshake and file-transfer logic for a small LAN
//! file-sharing tool, with the network and terminal work left to the caller.

pub mod state;
pub mod text;
pub mod discover;
pub mod peers;
pub mod identity;
pub mod service;
pub mod handshake;
pub mod transfer;
pub mod menu;
pub mod models;
pub mod logic;
