//! Decompressor for the PKWARE Data Compression Library "implode" format.
//!
//! The bit-level symbol decoder lives in [`symbol`]; the streaming
//! state machine that drives it over chunked input lives in [`exploder`].

pub mod exploder;
pub mod symbol;
