//! Brute-force search for a message whose SHA-256 digest begins with a chosen
//! sequence of bytes.
//!
//! - [`counter`]: the big-endian counter at the end of a message buffer and
//!   its increment with carry.
//! - [`digest`]: the hash function, computed by the `crypto` crate.
//! - [`matching`]: comparing the leading bytes of a digest with a pattern.
//! - [`worker`]: the increment-hash-compare cycle as a two-state machine.
//! - [`dispatch`]: the built-in message and the starting points of its
//!   workers.

pub mod counter;
pub mod digest;
pub mod dispatch;
pub mod matching;
pub mod worker;

pub use counter::add1_to_bytes;
