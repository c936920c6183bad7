//! Verified core of a decentralized, end-to-end encrypted terminal chat.
//!
//! The library holds the key derivation and message encryption of the
//! protocol, the room registry that a relay node keeps, and the decisions
//! that a chat client, its screen and its launcher take.

pub mod text;
pub mod crypto;
pub mod message;
pub mod server;
pub mod client;
pub mod ui;
pub mod host;

pub use crypto::{decrypt_with_key, derive_auth_hash, derive_key, derive_whisper_key, encrypt_with_key, AesKey};
pub use message::ChatMessage;
