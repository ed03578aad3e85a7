//! The language-independent part of the front end: a validated character
//! stream, generic over which characters a language accepts.

pub mod chars;

pub use chars::Chars;
