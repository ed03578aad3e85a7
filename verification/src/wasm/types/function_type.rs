use crate::wasm::encode::Encode;
use crate::wasm::types::ResultType;
use vstd::prelude::*;

verus! {

/// A function type of the binary format: its parameter types and its result
/// types, each a length-prefixed vector.
#[derive(Clone, Debug, Eq, Hash, PartialEq)]
pub struct FunctionType {
    pub parameter_types: ResultType,
    pub result_types: ResultType,
}

impl FunctionType {
    /// A function type with no parameters and no results.
    pub fn new() -> (r: FunctionType)
        ensures
            r.parameter_types.spec_values() == Seq::<crate::wasm::types::ValueType>::empty(),
            r.result_types.spec_values() == Seq::<crate::wasm::types::ValueType>::empty(),
            r.enc_wf(),
    {
        FunctionType { parameter_types: ResultType::new(), result_types: ResultType::new() }
    }
}

impl Encode for FunctionType {
    open spec fn spec_encoding(&self) -> Seq<u8> {
        seq![0x60u8] + self.parameter_types.spec_encoding() + self.result_types.spec_encoding()
    }

    open spec fn enc_wf(&self) -> bool {
        self.parameter_types.enc_wf() && self.result_types.enc_wf()
    }

    fn encode(&self, buffer: &mut Vec<u8>) {
        buffer.push(0x60);
        self.parameter_types.encode(buffer);
        self.result_types.encode(buffer);
        proof {
            assert(final(buffer)@ =~= old(buffer)@ + self.spec_encoding());
        }
    }
}

} // verus!
