//! The primitive types of the binary format.

pub mod function_type;
pub mod number_type;
pub mod value_type;

pub use function_type::FunctionType;
pub use number_type::NumberType;
pub use value_type::ValueType;

use crate::wasm::Vector;
use vstd::prelude::*;

verus! {

/// A result type: a length-prefixed vector of value types.
pub type ResultType = Vector<ValueType>;

} // verus!
