//! Small collection abstractions shared across the crate.

pub mod push;

pub use push::Push;
