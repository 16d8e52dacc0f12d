//! A song catalog held in memory for fast access, marked dirty on mutation,
//! and flushed lazily to durable storage once a size threshold is crossed.
//!
//! The catalog itself lives in [`catalog`]; the dirty flag and the flush
//! state machine around it live in [`store`]; the snapshot form that durable
//! backends write and read back lives in [`persist`]; case-insensitive
//! substring matching for search lives in [`text`].

pub mod catalog;
pub mod persist;
pub mod record;
pub mod store;
pub mod text;
