//! Storage and feed-composition core for a federated publishing protocol.
//!
//! Independent, signed items are submitted by public-key-identified users,
//! stored, and re-assembled into feeds: a public homepage feed, a
//! per-user timeline, and a per-user "following" feed.  This crate holds the
//! verified core: the versioned schema and its invariants, the transactional
//! item write with derived profile/follow materialization, the three
//! time-ordered feed queries, and the admission (quota) policy.
//!
//! Anything at the edge of the process — HTTP routing, template rendering,
//! the wire encoding of item payloads, and the cryptographic signature
//! primitive — is an external collaborator and stays outside this crate.

pub mod feed;
pub mod ids;
pub mod item;
pub mod keyed;
pub mod laws;
pub mod order;
pub mod page;
pub mod store;
pub mod text;
