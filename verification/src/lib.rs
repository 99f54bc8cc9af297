//! Verified core of a decentralized social network: content sanitization,
//! address and signature checks, the moderation and content-lifecycle rules,
//! and the key-value layout of its store.
pub mod text;
pub mod crypto;
pub mod models;
pub mod moderation;
pub mod content;
pub mod hollow;
pub mod tree;
pub mod peers;
pub mod store;
pub mod search;
pub mod tor;
pub mod media;
