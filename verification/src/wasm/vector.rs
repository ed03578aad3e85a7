use crate::wasm::encode::{lemma_encode_all_snoc, spec_encode_all, Encode};
use crate::wasm::leb128;
use vstd::prelude::*;

verus! {

/// A vector of the binary format: its encoding is its length as LEB128
/// followed by its elements' encodings, so it can never hold more elements
/// than a 32-bit length can name.
#[derive(Clone, Debug, Eq, Hash, PartialEq)]
pub struct Vector<T> {
    values: Vec<T>,
}

impl<T> Vector<T> {
    /// The held values, in insertion order.
    pub closed spec fn spec_values(&self) -> Seq<T> {
        self.values@
    }

    /// The length fits the 32-bit length prefix.
    pub open spec fn wf(&self) -> bool {
        self.spec_values().len() <= u32::MAX
    }

    /// An empty vector.
    pub fn new() -> (r: Vector<T>)
        ensures
            r.spec_values() == Seq::<T>::empty(),
            r.wf(),
    {
        let r = Vector { values: Vec::new() };
        proof {
            assert(r.spec_values() =~= Seq::<T>::empty());
        }
        r
    }

    /// The held values, for reading.
    pub fn values(&self) -> (r: &Vec<T>)
        ensures
            r@ == self.spec_values(),
    {
        &self.values
    }

    /// Appends one value; the vector must still have room under its 32-bit
    /// length bound.
    pub fn push(&mut self, value: T)
        requires
            old(self).spec_values().len() < u32::MAX,
        ensures
            final(self).spec_values() == old(self).spec_values().push(value),
            final(self).wf(),
    {
        self.values.push(value);
    }

    /// The number of held values.
    pub fn len(&self) -> (r: u32)
        requires
            self.wf(),
        ensures
            r as int == self.spec_values().len(),
    {
        self.values.len() as u32
    }
}

impl<T: Encode> Encode for Vector<T> {
    open spec fn spec_encoding(&self) -> Seq<u8> {
        leb128::spec_leb128(self.spec_values().len()) + spec_encode_all(self.spec_values())
    }

    open spec fn enc_wf(&self) -> bool {
        self.wf() && forall|i: int|
            0 <= i < self.spec_values().len() ==> (#[trigger] self.spec_values()[i]).enc_wf()
    }

    fn encode(&self, buffer: &mut Vec<u8>) {
        let n = self.len();
        leb128::encode_u32(n, buffer);
        let ghost after_len = buffer@;
        let ghost vs = self.spec_values();
        let mut i: usize = 0;
        proof {
            assert(vs.take(0) =~= Seq::<T>::empty());
            assert(after_len + Seq::<u8>::empty() =~= after_len);
        }
        while i < self.values.len()
            invariant
                0 <= i <= self.values@.len(),
                vs == self.spec_values(),
                vs.len() == self.values@.len(),
                self.enc_wf(),
                after_len == old(buffer)@ + leb128::spec_leb128(vs.len()),
                buffer@ == after_len + spec_encode_all(vs.take(i as int)),
            decreases self.values@.len() - i,
        {
            self.values[i].encode(buffer);
            proof {
                lemma_encode_all_snoc(vs, i as int);
                assert((after_len + spec_encode_all(vs.take(i as int)))
                    + vs[i as int].spec_encoding() =~= after_len + spec_encode_all(
                    vs.take(i as int + 1),
                ));
            }
            i += 1;
        }
        proof {
            assert(vs.take(vs.len() as int) =~= vs);
            assert(old(buffer)@ + leb128::spec_leb128(vs.len()) + spec_encode_all(vs)
                =~= old(buffer)@ + (leb128::spec_leb128(vs.len()) + spec_encode_all(vs)));
        }
    }
}

} // verus!
