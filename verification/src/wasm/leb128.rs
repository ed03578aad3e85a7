use crate::collections::Push;
use vstd::prelude::*;

verus! {

/// The LEB128 encoding of an unsigned integer: seven bits per byte, least
/// significant first, the high bit of every byte but the last set.
pub open spec fn spec_leb128(value: nat) -> Seq<u8>
    decreases value,
{
    if value < 128 {
        seq![value as u8]
    } else {
        seq![(value % 128 + 128) as u8] + spec_leb128(value / 128)
    }
}

/// Appends the LEB128 encoding of a 64-bit value to any sink.
pub fn encode_u64<B: Push<u8>>(value: u64, buffer: &mut B)
    ensures
        final(buffer).spec_items() == old(buffer).spec_items() + spec_leb128(value as nat),
{
    let ghost v0 = value as nat;
    let mut value = value;
    let ghost mut acc: Seq<u8> = Seq::empty();
    proof {
        assert(old(buffer).spec_items() + acc =~= old(buffer).spec_items());
    }
    loop
        invariant_except_break
            buffer.spec_items() == old(buffer).spec_items() + acc,
            acc + spec_leb128(value as nat) == spec_leb128(v0),
        ensures
            acc == spec_leb128(v0),
            buffer.spec_items() == old(buffer).spec_items() + acc,
        decreases value,
    {
        let least_significant_byte = (value % 128) as u8;
        let ghost vb = value as nat;
        assert(value >> 7 == value / 128) by (bit_vector);
        value = value >> 7;
        if value != 0 {
            assert(least_significant_byte | 0x80 == least_significant_byte + 128) by (bit_vector)
                requires
                    least_significant_byte < 128,
            ;
            buffer.push(least_significant_byte | 0x80);
            proof {
                assert(spec_leb128(vb) == seq![(vb % 128 + 128) as u8] + spec_leb128(vb / 128));
                assert(acc + (seq![(vb % 128 + 128) as u8] + spec_leb128(vb / 128)) =~= (acc
                    + seq![(vb % 128 + 128) as u8]) + spec_leb128(vb / 128));
                acc = acc + seq![(vb % 128 + 128) as u8];
                assert(buffer.spec_items() =~= old(buffer).spec_items() + acc);
            }
        } else {
            buffer.push(least_significant_byte);
            proof {
                assert(vb < 128);
                assert(spec_leb128(vb) == seq![vb as u8]);
                acc = acc + seq![vb as u8];
                assert(buffer.spec_items() =~= old(buffer).spec_items() + acc);
                assert(acc =~= spec_leb128(v0));
            }
            break ;
        }
    }
}

/// Appends the LEB128 encoding of a 32-bit value to a byte buffer.
pub fn encode_u32(value: u32, buffer: &mut Vec<u8>)
    ensures
        final(buffer)@ == old(buffer)@ + spec_leb128(value as nat),
{
    encode_u64(value as u64, buffer);
}

} // verus!
