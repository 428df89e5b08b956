//! Adler-32 checksum over byte sequences.

use vstd::prelude::*;

verus! {

/// Largest prime below 2^16; both running sums are kept modulo this value.
pub const ADLER_MODULUS: u32 = 65521;

/// Plain sum of the bytes of `s`.
pub open spec fn spec_byte_sum(s: Seq<u8>) -> int
    decreases s.len(),
{
    if s.len() == 0 {
        0
    } else {
        spec_byte_sum(s.drop_last()) + s.last() as int
    }
}

/// Low half of the checksum: one plus the sum of all bytes, reduced modulo
/// [`ADLER_MODULUS`].
pub open spec fn spec_adler_low(s: Seq<u8>) -> int {
    (1 + spec_byte_sum(s)) % (ADLER_MODULUS as int)
}

/// High half of the checksum: the sum of the low halves of every non-empty
/// prefix, reduced modulo [`ADLER_MODULUS`].
pub open spec fn spec_adler_high(s: Seq<u8>) -> int
    decreases s.len(),
{
    if s.len() == 0 {
        0
    } else {
        (spec_adler_high(s.drop_last()) + spec_adler_low(s)) % (ADLER_MODULUS as int)
    }
}

/// The Adler-32 checksum of `s`: the high half in the upper sixteen bits, the
/// low half in the lower sixteen.
pub open spec fn spec_adler32(s: Seq<u8>) -> u32 {
    (spec_adler_high(s) * 65536 + spec_adler_low(s)) as u32
}

/// Both halves stay below the modulus, so the combined value fits in 32 bits.
pub proof fn lemma_adler_bounds(s: Seq<u8>)
    ensures
        0 <= spec_adler_low(s) < ADLER_MODULUS,
        0 <= spec_adler_high(s) < ADLER_MODULUS,
        spec_adler32(s) == spec_adler_high(s) * 65536 + spec_adler_low(s),
    decreases s.len(),
{
    if s.len() > 0 {
        lemma_adler_bounds(s.drop_last());
    }
}

/// Writing `value` over position `i` shifts the byte sum by the difference.
pub proof fn lemma_byte_sum_update(s: Seq<u8>, i: int, value: u8)
    requires
        0 <= i < s.len(),
    ensures
        spec_byte_sum(s.update(i, value)) == spec_byte_sum(s) - s[i] as int + value as int,
    decreases s.len(),
{
    let t = s.update(i, value);
    if i == s.len() - 1 {
        assert(t.drop_last() =~= s.drop_last());
    } else {
        assert(t.drop_last() =~= s.drop_last().update(i, value));
        lemma_byte_sum_update(s.drop_last(), i, value);
    }
}

/// Changing any single byte changes the checksum.
pub proof fn lemma_adler32_detects_byte_change(s: Seq<u8>, i: int, value: u8)
    requires
        0 <= i < s.len(),
        value != s[i],
    ensures
        spec_adler32(s.update(i, value)) != spec_adler32(s),
{
    let t = s.update(i, value);
    lemma_byte_sum_update(s, i, value);
    lemma_adler_bounds(s);
    lemma_adler_bounds(t);
    let d = value as int - s[i] as int;
    assert(-256 < d < 256 && d != 0);
    assert(spec_adler_low(t) != spec_adler_low(s));
}

/// Computes the Adler-32 checksum of `data`.
pub fn adler32(data: &[u8]) -> (sum: u32)
    ensures
        sum == spec_adler32(data@),
{
    let mut low: u32 = 1;
    let mut high: u32 = 0;
    let mut i: usize = 0;
    while i < data.len()
        invariant
            i <= data.len(),
            low == spec_adler_low(data@.take(i as int)),
            high == spec_adler_high(data@.take(i as int)),
            low < ADLER_MODULUS,
            high < ADLER_MODULUS,
        decreases data.len() - i,
    {
        proof {
            assert(data@.take(i + 1).drop_last() =~= data@.take(i as int));
        }
        low = (low + data[i] as u32) % ADLER_MODULUS;
        high = (high + low) % ADLER_MODULUS;
        i += 1;
    }
    proof {
        assert(data@.take(i as int) =~= data@);
        lemma_adler_bounds(data@);
    }
    high * 65536 + low
}

} // verus!
