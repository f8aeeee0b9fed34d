//! A verified membership registry over a content-addressed graph store.
//!
//! Participants join a game identified by a short code: joining persists an
//! immutable player profile in the store and links it to the game's anchor
//! address under a fixed relation tag. Reading membership back walks those
//! links and materializes every profile they reference, failing fast on the
//! first dangling or ill-typed target.

pub mod bytes;
pub mod player_profile;
pub mod store;
