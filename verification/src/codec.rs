//! Little-endian integer fields inside byte buffers.

use vstd::bytes::*;
use vstd::prelude::*;
use vstd::slice::*;

verus! {

/// Reads the 32-bit little-endian field that starts at `pos`.
pub fn read_u32(bytes: &[u8], pos: usize) -> (x: u32)
    requires
        pos + 4 <= bytes.len(),
    ensures
        x == spec_u32_from_le_bytes(bytes@.subrange(pos as int, pos + 4)),
{
    u32_from_le_bytes(slice_subrange(bytes, pos, pos + 4))
}

/// Reads the 64-bit little-endian field that starts at `pos`.
pub fn read_u64(bytes: &[u8], pos: usize) -> (x: u64)
    requires
        pos + 8 <= bytes.len(),
    ensures
        x == spec_u64_from_le_bytes(bytes@.subrange(pos as int, pos + 8)),
{
    u64_from_le_bytes(slice_subrange(bytes, pos, pos + 8))
}

/// Appends `x` as a 32-bit little-endian field.
pub fn write_u32(out: &mut Vec<u8>, x: u32)
    ensures
        final(out)@ == old(out)@ + spec_u32_to_le_bytes(x),
{
    let mut field = u32_to_le_bytes(x);
    out.append(&mut field);
}

/// Appends `x` as a 64-bit little-endian field.
pub fn write_u64(out: &mut Vec<u8>, x: u64)
    ensures
        final(out)@ == old(out)@ + spec_u64_to_le_bytes(x),
{
    let mut field = u64_to_le_bytes(x);
    out.append(&mut field);
}

/// Appends a copy of `data`.
pub fn write_bytes(out: &mut Vec<u8>, data: &[u8])
    ensures
        final(out)@ == old(out)@ + data@,
{
    out.extend_from_slice(data);
    assert(out@ =~= old(out)@ + data@);
}

/// Two 32-bit fields that decode to the same value hold the same bytes.
pub proof fn lemma_u32_field_injective(a: Seq<u8>, b: Seq<u8>)
    requires
        a.len() == 4,
        b.len() == 4,
        spec_u32_from_le_bytes(a) == spec_u32_from_le_bytes(b),
    ensures
        a == b,
{
    lemma_auto_spec_u32_to_from_le_bytes();
    assert(spec_u32_to_le_bytes(spec_u32_from_le_bytes(a)) == a);
    assert(spec_u32_to_le_bytes(spec_u32_from_le_bytes(b)) == b);
}

} // verus!
