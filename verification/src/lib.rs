//! A small verified inventory store with an HTTP-style request layer.
//!
//! The store maps item names (byte strings) to integer quantities.  The
//! request layer decodes `POST` bodies (a JSON object with `name` and
//! `quantity` fields), applies the upsert to the store, and renders `GET`
//! responses as a JSON object.  All of the store logic, the wire codec and
//! the routing rules are verified; the surrounding process (network I/O,
//! the host's tick loop) lives outside this crate.

pub mod api;
pub mod json;
pub mod laws;
pub mod shared;
pub mod store;

pub use store::Entry;
pub use store::Store;
