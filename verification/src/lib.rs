//! A byte ring buffer kept in a memory region whose first eight bytes hold
//! the head and tail counters, a heap-backed ring buffer of big-endian words,
//! and the wire format of a small key-value protocol.

pub mod be;

pub mod shared_ring;

pub use shared_ring::RingBuffer;
pub mod heap_ring;
pub mod layout;
pub mod keys;
pub mod server;
