//! A LAN mesh of todo lists: device identity, signed session tokens, UDP
//! peer discovery, an authenticated replication handshake and a
//! last-writer-wins store that converges however replicas exchange rows.

pub mod text;
pub mod codec;
pub mod crypto;
pub mod models;
pub mod db;
pub mod ids;
pub mod handlers;
pub mod identity;
pub mod auth;
pub mod state;
pub mod beacon;
pub mod replication;
