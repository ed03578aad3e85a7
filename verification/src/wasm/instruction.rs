use crate::wasm::encode::Encode;
use vstd::prelude::*;

verus! {

/// An instruction of the binary format: a closed union, kept to the one
/// instruction with no operands while the encoder grows.
#[derive(Clone, Copy, Debug, Eq, Hash, PartialEq, Structural)]
pub enum Instruction {
    Nop,
}

impl Encode for Instruction {
    open spec fn spec_encoding(&self) -> Seq<u8> {
        match self {
            Instruction::Nop => seq![0x01u8],
        }
    }

    open spec fn enc_wf(&self) -> bool {
        true
    }

    fn encode(&self, buffer: &mut Vec<u8>) {
        let byte: u8 = match self {
            Instruction::Nop => 0x01,
        };
        buffer.push(byte);
        proof {
            assert(final(buffer)@ =~= old(buffer)@ + self.spec_encoding());
        }
    }
}

} // verus!
