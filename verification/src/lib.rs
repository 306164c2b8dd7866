//! A single-node, content-addressable blob store: a client places a blob
//! under its digest and fetches it again by that digest.
//!
//! This library holds the rules of the store and proves that they are
//! kept. It neither opens sockets nor spawns tasks: it says what bytes
//! make a request, what the storage actor does with a request, what a
//! connection does with each thing that happens on it, and what reply a
//! whole exchange gets.
//!
//! - [`wire`]: little-endian integers.
//! - [`messages`]: the frame codec.
//! - [`hash`]: the digest function, fed in pieces.
//! - [`hexcodec`]: digests as text.
//! - [`mapper`]: the storage actor and its map.
//! - [`server`]: the connection handler, one step at a time.
//! - [`client`]: the requests that a client sends.
//! - [`exchange`]: one whole exchange against a store, and what holds of
//!   every exchange.
//! - [`utils`]: shared buffers.
//! - [`error`]: the ways in which an exchange can fail.

pub mod client;
pub mod error;
pub mod exchange;
pub mod hash;
pub mod hexcodec;
pub mod mapper;
pub mod messages;
pub mod server;
pub mod utils;
pub mod wire;
