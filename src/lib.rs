//! Source splicing for identifier completion in an evaluation console.
//!
//! The library composes a synthetic source text out of a known-good buffer
//! and an in-progress fragment, finds where the word under the cursor starts,
//! bounds the number of completion results, and decides how auxiliary source
//! files are resolved and decoded.

pub mod limit;
pub mod resolve;
pub mod splice;
pub mod words;
