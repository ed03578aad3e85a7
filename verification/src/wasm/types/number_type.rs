use crate::wasm::encode::Encode;
use vstd::prelude::*;

verus! {

/// A numeric value type of the binary format.
#[derive(Clone, Copy, Debug, Eq, Hash, PartialEq, Structural)]
pub enum NumberType {
    I32,
    I64,
}

impl Encode for NumberType {
    open spec fn spec_encoding(&self) -> Seq<u8> {
        match self {
            NumberType::I32 => seq![0x7Fu8],
            NumberType::I64 => seq![0x7Eu8],
        }
    }

    open spec fn enc_wf(&self) -> bool {
        true
    }

    fn encode(&self, buffer: &mut Vec<u8>) {
        let byte: u8 = match self {
            NumberType::I32 => 0x7F,
            NumberType::I64 => 0x7E,
        };
        buffer.push(byte);
        proof {
            assert(final(buffer)@ =~= old(buffer)@ + self.spec_encoding());
        }
    }
}

} // verus!
