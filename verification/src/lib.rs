//! Admission and persistence rules for chunked file uploads.
//!
//! A large file arrives as independently uploaded chunks. Each request names
//! a file key, carries the chunk's index and its bytes in a multipart body,
//! and is stored at a location that depends on the key and the index alone.
//! This crate holds the decisions of that exchange; talking to the network,
//! the key registry and the file system is left to the caller.
//!
//! - [`handler`]: the request as a state machine, from arrival to answer.
//! - [`extract`]: the chunk that the parts of a body carry.
//! - [`decimal`]: chunk indices as decimal text.
//! - [`layout`]: where a chunk is kept.
//! - [`storage`]: what the storage holds once the handler's actions are performed.
//! - [`exchange`]: whole requests, and what holds of them.
//! - [`error`]: why a request fails.

pub mod decimal;
pub mod error;
pub mod exchange;
pub mod extract;
pub mod handler;
pub mod layout;
pub mod storage;
