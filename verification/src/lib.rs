//! A differential property-testing engine for container types.
//!
//! The engine decodes a raw byte buffer into a sequence of container
//! operations, applies each operation both to a naive reference model and to
//! the production container under test, compares the observable results, and
//! checks a fixed set of structural invariants after every step.

pub mod deque_runner;
pub mod hash_map;
pub mod hasher;
pub mod map_runner;
pub mod stream;
pub mod sut;
pub mod vec_deque;

pub use hasher::BuildTrulyAwfulHasher;
pub use hasher::TrulyAwfulHasher;
pub use stream::ByteStream;
pub use stream::ExhaustionPolicy;
