use crate::wasm::encode::Encode;
use crate::wasm::InstructionSequence;
use vstd::prelude::*;

verus! {

/// An expression of the binary format: an instruction sequence that consumes
/// nothing, terminated in the encoding by an end byte. Only such sequences
/// can exist behind this type.
#[derive(Clone, Debug, Eq, Hash, PartialEq)]
pub struct Expression {
    instruction_sequence: InstructionSequence,
}

impl Expression {
    /// Wraps an instruction sequence, which qualifies exactly when it
    /// consumes nothing.
    pub fn try_new(instruction_sequence: InstructionSequence) -> (r: Option<Expression>)
        ensures
            if instruction_sequence.spec_input_types().spec_values().len() == 0 {
                r matches Some(e) && e.spec_instruction_sequence() == instruction_sequence
            } else {
                r is None
            },
    {
        if instruction_sequence.input_types().values().is_empty() {
            Some(Expression { instruction_sequence })
        } else {
            None
        }
    }

    /// The wrapped instruction sequence.
    pub closed spec fn spec_instruction_sequence(&self) -> InstructionSequence {
        self.instruction_sequence
    }

    /// The wrapped instruction sequence, for reading.
    pub fn instruction_sequence(&self) -> (r: &InstructionSequence)
        ensures
            *r == self.spec_instruction_sequence(),
    {
        &self.instruction_sequence
    }
}

impl Encode for Expression {
    open spec fn spec_encoding(&self) -> Seq<u8> {
        self.spec_instruction_sequence().spec_encoding() + seq![0x0Bu8]
    }

    open spec fn enc_wf(&self) -> bool {
        self.spec_instruction_sequence().enc_wf()
    }

    fn encode(&self, buffer: &mut Vec<u8>) {
        self.instruction_sequence.encode(buffer);
        buffer.push(0x0B);
        proof {
            assert(final(buffer)@ =~= old(buffer)@ + self.spec_encoding());
        }
    }
}

} // verus!
