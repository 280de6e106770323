//! Small data structures for latency-sensitive runtimes.
//!
//! The centre of the crate is [`NumberKeyMap`], a map from `usize` keys to
//! values in which every key lives at exactly one computed slot. Around it
//! stand a few plain helpers: fixed and growable queues, a backoff counter,
//! a compact instant and a table with one datum per NUMA node.
pub mod array_buffer;
pub mod array_queue;
pub mod backoff;
pub mod clear_with;
pub mod instant;
pub mod mut_refs;
pub mod numa;
pub mod number_key_map;
pub mod ring;
pub mod std_specs;
pub mod vec_queue;

pub use array_buffer::ArrayBuffer;
pub use array_queue::ArrayQueue;
pub use clear_with::clear_with;
pub use instant::OrengineInstant;
pub use number_key_map::NumberKeyMap;
pub use vec_queue::VecQueue;
