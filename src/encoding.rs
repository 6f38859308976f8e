//! Writing integers and byte strings into a byte buffer.

use vstd::prelude::*;

verus! {

/// The four little-endian bytes of `n` modulo `2^32`.
pub open spec fn le32(n: nat) -> Seq<u8> {
    seq![
        (n % 256) as u8,
        ((n / 256) % 256) as u8,
        ((n / 65536) % 256) as u8,
        ((n / 16777216) % 256) as u8,
    ]
}

/// The eight little-endian bytes of a `u64`.
pub open spec fn le64(n: u64) -> Seq<u8> {
    le32((n as nat) % 0x1_0000_0000) + le32((n as nat) / 0x1_0000_0000)
}

/// Appends `n` as four little-endian bytes (modulo `2^32`).
pub fn write_u32_le(n: usize, buf: &mut Vec<u8>)
    ensures
        final(buf)@ == old(buf)@ + le32(n as nat),
{
    buf.push((n % 256) as u8);
    buf.push(((n / 256) % 256) as u8);
    buf.push(((n / 65536) % 256) as u8);
    buf.push(((n / 16777216) % 256) as u8);
    proof {
        assert(buf@ =~= old(buf)@ + le32(n as nat));
    }
}

/// Appends the bytes of `bytes`.
pub fn write_bytes(bytes: &Vec<u8>, buf: &mut Vec<u8>)
    ensures
        final(buf)@ == old(buf)@ + bytes@,
{
    let ghost start = buf@;
    let mut i: usize = 0;
    while i < bytes.len()
        invariant
            i <= bytes@.len(),
            buf@ == start + bytes@.subrange(0, i as int),
        decreases bytes.len() - i,
    {
        buf.push(bytes[i]);
        i = i + 1;
        proof {
            assert(bytes@.subrange(0, i as int) =~= bytes@.subrange(0, i - 1).push(bytes@[i - 1]));
        }
    }
    proof {
        assert(bytes@.subrange(0, bytes@.len() as int) =~= bytes@);
    }
}

} // verus!
