//! A small binary encoder in a WASM-like format: primitive types, LEB128
//! variable-length integers, length-prefixed vectors, and expressions, each
//! encoding to an exactly specified byte sequence.

pub mod encode;
pub mod expression;
pub mod instruction;
pub mod instruction_sequence;
pub mod leb128;
pub mod types;
pub mod vector;

pub use encode::Encode;
pub use expression::Expression;
pub use instruction::Instruction;
pub use instruction_sequence::InstructionSequence;
pub use vector::Vector;
