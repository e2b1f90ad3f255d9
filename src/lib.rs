//! Metadata parsing, merging and request assembly for a dynamic-namespace
//! provisioning client.
pub mod text;
pub mod labels;
pub mod types;
pub mod metadata;
pub mod naming;
pub mod vault;
pub mod extra;
pub mod payload;
pub mod ttl;
pub mod auth;
