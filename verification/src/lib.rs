//! Ordered, deduplicated font-family fallback chains.
//!
//! Given an ordered list of candidate fonts (stable key, display family name,
//! loaded bytes), the library merges them into a font-definitions structure:
//! a store of font bytes keyed by stable keys and one ordered, duplicate-free
//! fallback chain per family role. Replace-mode installs rebuild the chains
//! from scratch and report every candidate that loaded; extend-mode installs
//! append new keys behind the existing ones and report only what is new. A
//! commit to a live rendering context is signalled exactly when the reported
//! list is non-empty.

pub mod defs;
pub mod engine;
pub mod laws;
pub mod loader;
pub mod select;
