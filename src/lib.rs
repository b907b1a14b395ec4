//! A bounds-checked, word-aligned memory engine that records every
//! successful access in an ordered trace for later proof generation.
pub mod word;
pub mod trace;
pub mod engine;
pub mod laws;
