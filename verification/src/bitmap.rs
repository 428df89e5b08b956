//! Page presence bitmap of a diff snapshot.
//!
//! On disk the bitmap is packed eight pages to the byte, page `8 * j + b` in
//! bit `b` of byte `j`, least significant bit first. Bits past the last page
//! are zero.

use crate::edit_memory::EditMemoryError;
use vstd::prelude::*;

verus! {

/// How many of `flags` are set.
pub open spec fn spec_count_present(flags: Seq<bool>) -> nat
    decreases flags.len(),
{
    if flags.len() == 0 {
        0
    } else {
        spec_count_present(flags.drop_last()) + if flags.last() {
            1nat
        } else {
            0nat
        }
    }
}

/// The number of pages in a region of `memory_size` bytes, or `None` if the
/// region is not a whole number of pages of `page_size` bytes.
pub open spec fn spec_region_pages(memory_size: u64, page_size: u64) -> Option<int> {
    if page_size > 0 && memory_size % page_size == 0 {
        Some(memory_size as int / page_size as int)
    } else {
        None
    }
}

/// Bit `b` of `byte`, counted from the least significant.
pub open spec fn spec_bit_at(byte: u8, b: u8) -> bool {
    (byte >> b) & 1 == 1
}

/// The presence flag of page `k` in the packed bitmap `bits`.
pub open spec fn spec_packed_flag(bits: Seq<u8>, k: int) -> bool {
    spec_bit_at(bits[k / 8], (k % 8) as u8)
}

/// The flags of the first `page_count` pages of the packed bitmap `bits`.
pub open spec fn spec_unpack(bits: Seq<u8>, page_count: int) -> Seq<bool> {
    Seq::new(page_count as nat, |k: int| spec_packed_flag(bits, k))
}

/// Whether `bits` is a packed bitmap of exactly `page_count` pages: it has
/// one byte for every eight pages, rounded up, and no bit set past the last
/// page.
pub open spec fn spec_packed_ok(bits: Seq<u8>, page_count: int) -> bool {
    &&& bits.len() == (page_count + 7) / 8
    &&& page_count % 8 != 0 ==> forall|b: u8|
        page_count % 8 <= b < 8 ==> !#[trigger] spec_bit_at(bits.last(), b)
}

/// The position, among the pages stored in the diff, of page `page_index`:
/// the number of present pages before it. `None` if the page is absent or
/// out of range.
pub open spec fn spec_payload_index(flags: Seq<bool>, page_index: int) -> Option<nat> {
    if 0 <= page_index < flags.len() && flags[page_index] {
        Some(spec_count_present(flags.take(page_index)))
    } else {
        None
    }
}

/// No more flags are set than there are flags, and a prefix has no more set
/// than the whole.
pub proof fn lemma_count_present_bounds(flags: Seq<bool>, k: int)
    requires
        0 <= k <= flags.len(),
    ensures
        spec_count_present(flags.take(k)) <= k,
        spec_count_present(flags.take(k)) <= spec_count_present(flags),
        spec_count_present(flags) <= flags.len(),
    decreases flags.len(),
{
    if flags.len() == 0 {
        assert(flags.take(k) =~= flags);
    } else if k == flags.len() {
        assert(flags.take(k) =~= flags);
        lemma_count_present_bounds(flags.drop_last(), k - 1);
    } else {
        assert(flags.take(k) =~= flags.drop_last().take(k));
        lemma_count_present_bounds(flags.drop_last(), k);
    }
}

/// Taking one more page adds its flag to the count.
pub proof fn lemma_count_present_step(flags: Seq<bool>, k: int)
    requires
        0 <= k < flags.len(),
    ensures
        spec_count_present(flags.take(k + 1)) == spec_count_present(flags.take(k)) + if flags[k] {
            1nat
        } else {
            0nat
        },
{
    assert(flags.take(k + 1).drop_last() =~= flags.take(k));
}

/// With every flag set the count is the number of flags.
pub proof fn lemma_count_present_all(flags: Seq<bool>)
    requires
        forall|i: int| 0 <= i < flags.len() ==> flags[i],
    ensures
        spec_count_present(flags) == flags.len(),
    decreases flags.len(),
{
    if flags.len() > 0 {
        lemma_count_present_all(flags.drop_last());
    }
}

/// Reads bit `b` of `byte`.
pub fn bit_at(byte: u8, b: u8) -> (set: bool)
    requires
        b < 8,
    ensures
        set == spec_bit_at(byte, b),
{
    (byte >> b) & 1 == 1
}

/// One presence flag for every page of a memory region: `true` where the
/// diff holds the page, `false` where the base is to be used.
#[derive(Clone, Debug, PartialEq, Eq)]
pub struct PageBitmap {
    flags: Vec<bool>,
}

impl View for PageBitmap {
    type V = Seq<bool>;

    closed spec fn view(&self) -> Seq<bool> {
        self.flags@
    }
}

impl PageBitmap {
    /// Makes the bitmap of a region of `memory_size` bytes in pages of
    /// `page_size` bytes from one flag per page.
    ///
    /// Fails with `FormatError` unless the region is a whole number of pages
    /// and `flags` has exactly one flag for each of them.
    pub fn new(flags: Vec<bool>, memory_size: u64, page_size: u64) -> (r: Result<
        PageBitmap,
        EditMemoryError,
    >)
        ensures
            match r {
                Ok(bitmap) => {
                    &&& spec_region_pages(memory_size, page_size) == Some(flags@.len() as int)
                    &&& bitmap@ == flags@
                },
                Err(e) => {
                    &&& e == EditMemoryError::FormatError
                    &&& spec_region_pages(memory_size, page_size) != Some(flags@.len() as int)
                },
            },
    {
        if page_size == 0 || memory_size % page_size != 0 {
            return Err(EditMemoryError::FormatError);
        }
        if memory_size / page_size != flags.len() as u64 {
            return Err(EditMemoryError::FormatError);
        }
        Ok(PageBitmap { flags })
    }

    /// Makes the bitmap of a region of `memory_size` bytes in pages of
    /// `page_size` bytes from its packed form `bits`, which declares
    /// `declared_pages` pages.
    ///
    /// Fails with `FormatError` unless the region is a whole number of
    /// pages, `declared_pages` is that number, and `bits` is a packed bitmap
    /// of exactly that many pages. A bitmap that is too short, too long, or
    /// that sets a bit past the last page is rejected, not repaired. So is
    /// one with more pages than `usize` can count.
    pub fn from_packed(bits: &[u8], declared_pages: u64, memory_size: u64, page_size: u64) -> (r:
        Result<PageBitmap, EditMemoryError>)
        ensures
            match r {
                Ok(bitmap) => {
                    &&& declared_pages <= usize::MAX
                    &&& spec_region_pages(memory_size, page_size) == Some(declared_pages as int)
                    &&& spec_packed_ok(bits@, declared_pages as int)
                    &&& bitmap@ == spec_unpack(bits@, declared_pages as int)
                },
                Err(e) => {
                    &&& e == EditMemoryError::FormatError
                    &&& !(spec_region_pages(memory_size, page_size) == Some(declared_pages as int)
                        && spec_packed_ok(bits@, declared_pages as int) && declared_pages
                        <= usize::MAX)
                },
            },
    {
        if page_size == 0 || memory_size % page_size != 0 {
            return Err(EditMemoryError::FormatError);
        }
        if memory_size / page_size != declared_pages {
            return Err(EditMemoryError::FormatError);
        }
        let whole_bytes = declared_pages / 8;
        let spare_bits = (declared_pages % 8) as u8;
        let expected_len = if spare_bits == 0 {
            whole_bytes
        } else {
            whole_bytes + 1
        };
        if bits.len() as u64 != expected_len {
            return Err(EditMemoryError::FormatError);
        }
        if declared_pages > usize::MAX as u64 {
            return Err(EditMemoryError::FormatError);
        }
        let page_count = declared_pages as usize;
        if spare_bits != 0 {
            let last = bits[bits.len() - 1];
            let mut b: u8 = spare_bits;
            while b < 8
                invariant
                    spare_bits <= b <= 8,
                    spare_bits == declared_pages % 8,
                    spare_bits != 0,
                    bits@.len() == (declared_pages + 7) / 8,
                    last == bits@.last(),
                    forall|c: u8| spare_bits <= c < b ==> !#[trigger] spec_bit_at(last, c),
                decreases 8 - b,
            {
                if bit_at(last, b) {
                    return Err(EditMemoryError::FormatError);
                }
                b += 1;
            }
        }
        let mut flags: Vec<bool> = Vec::with_capacity(page_count);
        let mut k: usize = 0;
        while k < page_count
            invariant
                k <= page_count,
                page_count == declared_pages,
                bits@.len() == (declared_pages + 7) / 8,
                flags@ == spec_unpack(bits@, k as int),
            decreases page_count - k,
        {
            let flag = bit_at(bits[k / 8], (k % 8) as u8);
            flags.push(flag);
            proof {
                assert(flags@ =~= spec_unpack(bits@, k + 1));
            }
            k += 1;
        }
        Ok(PageBitmap { flags })
    }

    /// The number of pages the bitmap covers.
    pub fn page_count(&self) -> (n: usize)
        ensures
            n == self@.len(),
    {
        self.flags.len()
    }

    /// Whether the diff holds page `page_index`.
    ///
    /// Fails with `FormatError` when `page_index` is past the last page the
    /// bitmap covers; an absent flag is never read as `false`.
    pub fn is_present(&self, page_index: usize) -> (r: Result<bool, EditMemoryError>)
        ensures
            match r {
                Ok(present) => page_index < self@.len() && present == self@[page_index as int],
                Err(e) => e == EditMemoryError::FormatError && page_index >= self@.len(),
            },
    {
        if page_index < self.flags.len() {
            Ok(self.flags[page_index])
        } else {
            Err(EditMemoryError::FormatError)
        }
    }

    /// The number of pages before `page_index` that the diff holds.
    pub fn present_before(&self, page_index: usize) -> (n: usize)
        requires
            page_index <= self@.len(),
        ensures
            n == spec_count_present(self@.take(page_index as int)),
    {
        let mut n: usize = 0;
        let mut i: usize = 0;
        proof {
            assert(self@.take(0) =~= Seq::<bool>::empty());
        }
        while i < page_index
            invariant
                i <= page_index <= self.flags@.len(),
                n <= i,
                n == spec_count_present(self@.take(i as int)),
            decreases page_index - i,
        {
            proof {
                lemma_count_present_step(self@, i as int);
            }
            if self.flags[i] {
                n += 1;
            }
            i += 1;
        }
        n
    }

    /// The number of pages that the diff holds.
    pub fn present_count(&self) -> (n: usize)
        ensures
            n == spec_count_present(self@),
    {
        proof {
            assert(self@.take(self@.len() as int) =~= self@);
        }
        self.present_before(self.flags.len())
    }

    /// Where page `page_index` sits among the pages stored in the diff:
    /// `Some(n)` if it is the `n`-th stored page, counted from zero, `None`
    /// if the diff does not hold it.
    ///
    /// Fails with `FormatError` when `page_index` is past the last page the
    /// bitmap covers.
    pub fn payload_index(&self, page_index: usize) -> (r: Result<Option<usize>, EditMemoryError>)
        ensures
            match r {
                Ok(Some(n)) => spec_payload_index(self@, page_index as int) == Some(n as nat),
                Ok(None) => page_index < self@.len() && !self@[page_index as int],
                Err(e) => e == EditMemoryError::FormatError && page_index >= self@.len(),
            },
    {
        if page_index >= self.flags.len() {
            return Err(EditMemoryError::FormatError);
        }
        if self.flags[page_index] {
            Ok(Some(self.present_before(page_index)))
        } else {
            Ok(None)
        }
    }
}

} // verus!
