//! A password-search engine for encrypted archives.
//!
//! The engine tries candidate passwords against a decryption oracle, either
//! replaying them from a word list or enumerating every string over a fixed
//! alphabet up to a bounded length. Its core pieces are the shared
//! coordination state (a monotonic "found" flag plus a single-slot result),
//! the candidate generator, and the decision logic of the feeder, the
//! workers and the attack coordinator.

pub mod alphabet;
pub mod coordination;
pub mod engine;
pub mod generator;
pub mod oracle;
pub mod product;
pub mod workers;
