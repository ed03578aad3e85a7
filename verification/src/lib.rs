//! Front end for a minimal language: a lossless, position-accurate lexer and
//! recursive-descent parser whose syntax tree reconstructs the source exactly,
//! together with a small binary encoder for a WASM-like format.

pub mod communication;
pub mod eureka;
pub mod language;
pub mod collections;
pub mod miscellaneous;
pub mod text;
pub mod wasm;
