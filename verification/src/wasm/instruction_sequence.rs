use crate::wasm::encode::{lemma_encode_all_snoc, spec_encode_all, Encode};
use crate::wasm::types::{FunctionType, ResultType};
use crate::wasm::Instruction;
use vstd::prelude::*;

verus! {

/// A sequence of instructions together with the function type it consumes and
/// produces.
#[derive(Clone, Debug, Eq, Hash, PartialEq)]
pub struct InstructionSequence {
    function_type: FunctionType,
    instructions: Vec<Instruction>,
}

impl InstructionSequence {
    /// The types this sequence consumes.
    pub closed spec fn spec_input_types(&self) -> ResultType {
        self.function_type.parameter_types
    }

    /// The types this sequence produces.
    pub closed spec fn spec_output_types(&self) -> ResultType {
        self.function_type.result_types
    }

    /// The held instructions, in order.
    pub closed spec fn spec_instructions(&self) -> Seq<Instruction> {
        self.instructions@
    }

    /// An empty sequence consuming and producing nothing.
    pub fn new() -> (r: InstructionSequence)
        ensures
            r.spec_input_types().spec_values() == Seq::<crate::wasm::types::ValueType>::empty(),
            r.spec_output_types().spec_values() == Seq::<crate::wasm::types::ValueType>::empty(),
            r.spec_instructions() == Seq::<Instruction>::empty(),
            r.enc_wf(),
    {
        let r = InstructionSequence { function_type: FunctionType::new(), instructions: Vec::new() };
        proof {
            assert(r.spec_instructions() =~= Seq::<Instruction>::empty());
        }
        r
    }

    /// The types this sequence consumes.
    pub fn input_types(&self) -> (r: &ResultType)
        ensures
            *r == self.spec_input_types(),
    {
        &self.function_type.parameter_types
    }

    /// The types this sequence produces.
    pub fn output_types(&self) -> (r: &ResultType)
        ensures
            *r == self.spec_output_types(),
    {
        &self.function_type.result_types
    }
}

impl Encode for InstructionSequence {
    open spec fn spec_encoding(&self) -> Seq<u8> {
        spec_encode_all(self.spec_instructions())
    }

    open spec fn enc_wf(&self) -> bool {
        forall|i: int|
            0 <= i < self.spec_instructions().len() ==> (
            #[trigger] self.spec_instructions()[i]).enc_wf()
    }

    fn encode(&self, buffer: &mut Vec<u8>) {
        let ghost isx = self.spec_instructions();
        let mut i: usize = 0;
        proof {
            assert(isx.take(0) =~= Seq::<Instruction>::empty());
            assert(old(buffer)@ + Seq::<u8>::empty() =~= old(buffer)@);
        }
        while i < self.instructions.len()
            invariant
                0 <= i <= self.instructions@.len(),
                isx == self.spec_instructions(),
                isx.len() == self.instructions@.len(),
                self.enc_wf(),
                buffer@ == old(buffer)@ + spec_encode_all(isx.take(i as int)),
            decreases self.instructions@.len() - i,
        {
            self.instructions[i].encode(buffer);
            proof {
                lemma_encode_all_snoc(isx, i as int);
                assert((old(buffer)@ + spec_encode_all(isx.take(i as int)))
                    + isx[i as int].spec_encoding() =~= old(buffer)@ + spec_encode_all(
                    isx.take(i as int + 1),
                ));
            }
            i += 1;
        }
        proof {
            assert(isx.take(isx.len() as int) =~= isx);
        }
    }
}

} // verus!
