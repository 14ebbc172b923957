//! Authoritative session server core: wire framing, per-connection decisions,
//! and the single-owner world state with proximity grouping.

pub mod actor;
pub mod codec;
pub mod coordinator;
pub mod laws;
pub mod protocol;
pub mod registry;
pub mod vec2;
pub mod world;
