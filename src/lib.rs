//! Short random identifiers drawn from a caller-chosen alphabet.
//!
//! An [`Alphabet`] holds the symbols, a [`RandomFiller`] hands out random
//! bytes, and a [`Generator`] turns those bytes into ids of a fixed length,
//! written to a [`Sink`] or returned as a new string. The mapping itself is
//! in [`engine`].
pub mod alphabet;
pub mod engine;
pub mod generator;
pub mod random;
pub mod sink;
pub mod std_rand;

pub use alphabet::{Alphabet, HexAlphabet};
pub use engine::WriteError;
pub use generator::{Fmt, Generator, DEFAULT_SIZE};
pub use random::{RandomFiller, Replay, Rng};
pub use sink::{BoundedSink, Sink, SinkError, SmartId};
pub use std_rand::randoid;
