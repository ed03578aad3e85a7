use crate::wasm::encode::Encode;
use crate::wasm::types::NumberType;
use vstd::prelude::*;

verus! {

/// A value type of the binary format: a closed union, currently with number
/// types as its only form.
#[derive(Clone, Copy, Debug, Eq, Hash, PartialEq, Structural)]
pub enum ValueType {
    NumberType(NumberType),
}

impl Encode for ValueType {
    open spec fn spec_encoding(&self) -> Seq<u8> {
        match self {
            ValueType::NumberType(number_type) => number_type.spec_encoding(),
        }
    }

    open spec fn enc_wf(&self) -> bool {
        true
    }

    fn encode(&self, buffer: &mut Vec<u8>) {
        match self {
            ValueType::NumberType(number_type) => number_type.encode(buffer),
        }
    }
}

impl From<NumberType> for ValueType {
    fn from(value: NumberType) -> (r: ValueType) {
        ValueType::NumberType(value)
    }
}

impl vstd::std_specs::convert::FromSpecImpl<NumberType> for ValueType {
    open spec fn obeys_from_spec() -> bool {
        true
    }

    open spec fn from_spec(value: NumberType) -> ValueType {
        ValueType::NumberType(value)
    }
}

} // verus!
