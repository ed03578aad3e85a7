use vstd::prelude::*;

verus! {

/// A value with a binary format: encoding appends exactly its specified byte
/// sequence to the buffer.
pub trait Encode {
    /// The exact bytes this value encodes to.
    spec fn spec_encoding(&self) -> Seq<u8>;

    /// What the value must satisfy for its encoding to be representable (for
    /// a vector: its length fits the length prefix).
    spec fn enc_wf(&self) -> bool;

    fn encode(&self, buffer: &mut Vec<u8>)
        requires
            self.enc_wf(),
        ensures
            final(buffer)@ == old(buffer)@ + self.spec_encoding(),
    ;
}

/// The concatenated encodings of a sequence of values.
pub open spec fn spec_encode_all<T: Encode>(s: Seq<T>) -> Seq<u8>
    decreases s.len(),
{
    if s.len() == 0 {
        Seq::empty()
    } else {
        s[0].spec_encoding() + spec_encode_all(s.drop_first())
    }
}

/// Extending an encoded prefix by one value appends that value's encoding.
pub proof fn lemma_encode_all_snoc<T: Encode>(s: Seq<T>, i: int)
    requires
        0 <= i < s.len(),
    ensures
        spec_encode_all(s.take(i + 1)) == spec_encode_all(s.take(i)) + s[i].spec_encoding(),
    decreases i,
{
    if i == 0 {
        assert(s.take(1).drop_first() =~= Seq::<T>::empty());
        assert(s.take(0) =~= Seq::<T>::empty());
        assert(s.take(1)[0] == s[0]);
        assert(spec_encode_all(Seq::<T>::empty()) =~= Seq::<u8>::empty());
        assert(spec_encode_all(s.take(1)) =~= s[0].spec_encoding());
        assert(Seq::<u8>::empty() + s[0].spec_encoding() =~= s[0].spec_encoding());
    } else {
        assert(s.take(i + 1)[0] == s[0]);
        assert(s.take(i)[0] == s[0]);
        assert(s.take(i + 1).drop_first() =~= s.drop_first().take(i));
        assert(s.take(i).drop_first() =~= s.drop_first().take(i - 1));
        assert(s.drop_first()[i - 1] == s[i]);
        lemma_encode_all_snoc(s.drop_first(), i - 1);
        assert(s[0].spec_encoding() + (spec_encode_all(s.drop_first().take(i - 1))
            + s[i].spec_encoding()) =~= (s[0].spec_encoding() + spec_encode_all(
            s.drop_first().take(i - 1),
        )) + s[i].spec_encoding());
    }
}

} // verus!
