//! The logic of a CrossPaste-compatible hub and relay: pairing, encrypted distribution, file
//! transfer, device tunnels, rooms and administration.
pub mod admin;
pub mod agent;
pub mod auth;
pub mod broadcast;
pub mod bytes;
pub mod clock;
pub mod codec;
pub mod config;
pub mod database;
pub mod delivery;
pub mod discovery;
pub mod error;
pub mod headers;
pub mod hub;
pub mod paste;
pub mod pieces;
pub mod protocol;
pub mod proxy;
pub mod qr;
pub mod random;
pub mod registry;
pub mod routes;
pub mod secure;
pub mod sort;
pub mod sync_info;
pub mod table;
pub mod text;
pub mod totp;
pub mod tunnel;
