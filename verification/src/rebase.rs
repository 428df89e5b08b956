//! Rebasing: laying the pages of a diff snapshot over its base.
//!
//! A diff file is self-describing. All integers are little-endian:
//!
//! ```text
//! page_size (8) | memory_size (8) | page_count (8) | bitmap | payload
//! ```
//!
//! `memory_size` is the size in bytes of the region the diff covers and
//! `page_count` the number of pages the bitmap declares. The bitmap is
//! packed, one byte for every eight pages, rounded up. The payload holds the
//! pages whose bit is set, in ascending page order, with nothing between
//! them.
//!
//! The base is a flat image whose page size the caller supplies. The diff
//! may cover fewer pages than the base has; the pages it does not cover are
//! taken from the base.

use crate::bitmap::{
    lemma_count_present_all, lemma_count_present_bounds, lemma_count_present_step,
    spec_count_present, spec_packed_ok, spec_region_pages, spec_unpack, PageBitmap,
};
use crate::codec::{read_u64, write_bytes};
use crate::edit_memory::EditMemoryError;
use vstd::arithmetic::div_mod::{
    lemma_div_pos_is_pos, lemma_fundamental_div_mod, lemma_fundamental_div_mod_converse,
};
use vstd::bytes::spec_u64_from_le_bytes;
use vstd::prelude::*;
use vstd::slice::slice_subrange;

verus! {

/// Bytes taken by the three fields at the start of a diff file.
pub const DIFF_HEADER_LEN: usize = 24;

/// The fields at the start of a diff file.
#[derive(Clone, Copy, Debug, PartialEq, Eq, Structural)]
pub struct DiffHeader {
    pub page_size: u64,
    pub memory_size: u64,
    pub page_count: u64,
}

/// A diff file taken apart: its page size, its bitmap, and where in the
/// file the stored pages begin.
#[derive(Clone, Debug, PartialEq, Eq)]
pub struct DiffLayout {
    pub page_size: u64,
    pub bitmap: PageBitmap,
    pub payload_start: usize,
}

/// Mathematical model of a diff file: its page size, one flag per page, and
/// the bytes of the stored pages.
pub struct DiffView {
    pub page_size: u64,
    pub flags: Seq<bool>,
    pub payload: Seq<u8>,
}

/// Which file a page of the output is copied from.
#[derive(Clone, Copy, Debug, PartialEq, Eq, Structural)]
pub enum PageSource {
    Base,
    Diff,
}

/// One step of a rebase: copy `length` bytes from `offset` in `source` to
/// the end of the output. For the diff, `offset` counts from the start of
/// its payload.
#[derive(Clone, Copy, Debug, PartialEq, Eq, Structural)]
pub struct PageCopy {
    pub source: PageSource,
    pub offset: u64,
    pub length: u64,
}

/// The header that the first bytes of `s` spell out, if there are enough.
pub open spec fn spec_diff_header(s: Seq<u8>) -> Option<DiffHeader> {
    if s.len() < DIFF_HEADER_LEN {
        None
    } else {
        Some(
            DiffHeader {
                page_size: spec_u64_from_le_bytes(s.subrange(0, 8)),
                memory_size: spec_u64_from_le_bytes(s.subrange(8, 16)),
                page_count: spec_u64_from_le_bytes(s.subrange(16, 24)),
            },
        )
    }
}

/// Bytes taken by the packed bitmap of `page_count` pages.
pub open spec fn spec_bitmap_len(page_count: u64) -> int {
    (page_count + 7) / 8
}

/// The diff that `s` spells out. Anything that does not fit the layout is a
/// `FormatError`: a header or bitmap that is cut short, a region that is not
/// a whole number of pages, a declared page count that is not the region's,
/// a bit set past the last page.
pub open spec fn spec_parse_diff(s: Seq<u8>) -> Result<DiffView, EditMemoryError> {
    match spec_diff_header(s) {
        None => Err(EditMemoryError::FormatError),
        Some(header) => {
            let payload_start = DIFF_HEADER_LEN + spec_bitmap_len(header.page_count);
            let bits = s.subrange(DIFF_HEADER_LEN as int, payload_start);
            if s.len() >= payload_start && header.page_count <= usize::MAX && spec_region_pages(
                header.memory_size,
                header.page_size,
            ) == Some(header.page_count as int) && spec_packed_ok(bits, header.page_count as int) {
                Ok(
                    DiffView {
                        page_size: header.page_size,
                        flags: spec_unpack(bits, header.page_count as int),
                        payload: s.subrange(payload_start, s.len() as int),
                    },
                )
            } else {
                Err(EditMemoryError::FormatError)
            }
        },
    }
}

/// Why a base of `base_len` bytes in pages of `page_size` bytes and a diff
/// with the given page size, flags and payload length cannot be rebased, or
/// `None` if they can. The checks run in this order:
///
/// - the base must be a whole number of pages, else `FormatError`;
/// - the diff must use the base's page size and cover no more pages than
///   the base has, else `SizeMismatch`;
/// - the payload must hold exactly the pages whose flag is set, else
///   `FormatError`.
pub open spec fn spec_plan_error(
    base_len: int,
    page_size: u64,
    diff_page_size: u64,
    flags: Seq<bool>,
    payload_len: int,
) -> Option<EditMemoryError> {
    if page_size == 0 || base_len % (page_size as int) != 0 {
        Some(EditMemoryError::FormatError)
    } else if diff_page_size != page_size || flags.len() > base_len / (page_size as int) {
        Some(EditMemoryError::SizeMismatch)
    } else if payload_len != spec_count_present(flags) * page_size {
        Some(EditMemoryError::FormatError)
    } else {
        None
    }
}

/// Byte `k` of the rebased image: the byte of the diff's copy of the page
/// where the diff holds the page, the base's byte where it does not.
pub open spec fn spec_overlay_byte(
    base: Seq<u8>,
    flags: Seq<bool>,
    payload: Seq<u8>,
    page_size: int,
    k: int,
) -> u8 {
    let page = k / page_size;
    if 0 <= page < flags.len() && flags[page] {
        payload[spec_count_present(flags.take(page)) * page_size + k % page_size]
    } else {
        base[k]
    }
}

/// The rebased image: as long as the base, every page taken whole from the
/// diff if its flag is set and from the base otherwise.
pub open spec fn spec_overlay(
    base: Seq<u8>,
    flags: Seq<bool>,
    payload: Seq<u8>,
    page_size: int,
) -> Seq<u8> {
    Seq::new(base.len(), |k: int| spec_overlay_byte(base, flags, payload, page_size, k))
}

/// The result of rebasing the diff file `diff` onto `base`, a flat image in
/// pages of `page_size` bytes.
pub open spec fn spec_rebase(base: Seq<u8>, diff: Seq<u8>, page_size: u64) -> Result<
    Seq<u8>,
    EditMemoryError,
> {
    match spec_parse_diff(diff) {
        Err(e) => Err(e),
        Ok(parsed) => match spec_plan_error(
            base.len() as int,
            page_size,
            parsed.page_size,
            parsed.flags,
            parsed.payload.len() as int,
        ) {
            Some(e) => Err(e),
            None => Ok(spec_overlay(base, parsed.flags, parsed.payload, page_size as int)),
        },
    }
}

/// The step that produces page `page` of the output.
pub open spec fn spec_page_copy(flags: Seq<bool>, page_size: u64, page: int) -> PageCopy {
    if 0 <= page < flags.len() && flags[page] {
        PageCopy {
            source: PageSource::Diff,
            offset: (spec_count_present(flags.take(page)) * page_size) as u64,
            length: page_size,
        }
    } else {
        PageCopy { source: PageSource::Base, offset: (page * page_size) as u64, length: page_size }
    }
}

proof fn lemma_page_span(page: int, pages: int, page_size: int)
    by (nonlinear_arith)
    requires
        0 <= page < pages,
        0 < page_size,
    ensures
        0 <= page * page_size,
        page * page_size + page_size <= pages * page_size,
        (page + 1) * page_size == page * page_size + page_size,
{
}

proof fn lemma_whole_pages(len: int, page_size: int)
    requires
        0 <= len,
        0 < page_size,
        len % page_size == 0,
    ensures
        (len / page_size) * page_size == len,
        0 <= len / page_size,
{
    lemma_fundamental_div_mod(len, page_size);
    lemma_div_pos_is_pos(len, page_size);
    assert(page_size * (len / page_size) == (len / page_size) * page_size) by (nonlinear_arith);
}

proof fn lemma_offset_in_page(page: int, offset: int, page_size: int)
    requires
        0 <= offset < page_size,
    ensures
        (page * page_size + offset) / page_size == page,
        (page * page_size + offset) % page_size == offset,
{
    lemma_fundamental_div_mod_converse(page * page_size + offset, page_size, page, offset);
}

proof fn lemma_page_of_byte(k: int, pages: int, page_size: int)
    requires
        0 < page_size,
        0 <= k < pages * page_size,
    ensures
        0 <= k / page_size < pages,
        (k / page_size) * page_size + k % page_size == k,
        0 <= k % page_size < page_size,
{
    lemma_fundamental_div_mod(k, page_size);
    lemma_div_pos_is_pos(k, page_size);
    let q = k / page_size;
    assert(page_size * q == q * page_size) by (nonlinear_arith);
    if q >= pages {
        assert(q * page_size >= pages * page_size) by (nonlinear_arith)
            requires
                q >= pages,
                page_size > 0,
        ;
    }
}

/// Rebase correctness, page by page: page `page` of the rebased image is
/// the diff's copy of that page if its flag is set, and the base's page
/// otherwise. The diff's copy is the one that as many stored pages precede
/// as there are flags set before `page`.
pub proof fn lemma_overlay_page(
    base: Seq<u8>,
    flags: Seq<bool>,
    payload: Seq<u8>,
    page_size: int,
    page: int,
)
    requires
        0 < page_size,
        base.len() as int % page_size == 0,
        flags.len() <= base.len() as int / page_size,
        payload.len() == spec_count_present(flags) * page_size,
        0 <= page < base.len() as int / page_size,
    ensures
        ({
            let start = page * page_size;
            let stored = spec_count_present(flags.take(page)) * page_size;
            let image = spec_overlay(base, flags, payload, page_size);
            &&& 0 <= start
            &&& start + page_size <= base.len()
            &&& if page < flags.len() && flags[page] {
                &&& 0 <= stored
                &&& stored + page_size <= payload.len()
                &&& image.subrange(start, start + page_size) == payload.subrange(
                    stored,
                    stored + page_size,
                )
            } else {
                image.subrange(start, start + page_size) == base.subrange(
                    start,
                    start + page_size,
                )
            }
        }),
{
    let pages = base.len() as int / page_size;
    lemma_whole_pages(base.len() as int, page_size);
    lemma_page_span(page, pages, page_size);
    let start = page * page_size;
    let image = spec_overlay(base, flags, payload, page_size);
    let here = image.subrange(start, start + page_size);
    if page < flags.len() && flags[page] {
        let before = spec_count_present(flags.take(page)) as int;
        let total = spec_count_present(flags) as int;
        lemma_count_present_step(flags, page);
        lemma_count_present_bounds(flags, page + 1);
        lemma_page_span(before, total, page_size);
        let stored = before * page_size;
        let there = payload.subrange(stored, stored + page_size);
        assert forall|o: int| 0 <= o < page_size implies here[o] == there[o] by {
            lemma_offset_in_page(page, o, page_size);
        }
        assert(here =~= there);
    } else {
        let there = base.subrange(start, start + page_size);
        assert forall|o: int| 0 <= o < page_size implies here[o] == there[o] by {
            lemma_offset_in_page(page, o, page_size);
        }
        assert(here =~= there);
    }
}

/// With no flag set the rebased image is the base, byte for byte.
pub proof fn lemma_overlay_none_present(
    base: Seq<u8>,
    flags: Seq<bool>,
    payload: Seq<u8>,
    page_size: int,
)
    requires
        0 < page_size,
        forall|i: int| 0 <= i < flags.len() ==> !flags[i],
    ensures
        spec_overlay(base, flags, payload, page_size) == base,
{
    assert(spec_overlay(base, flags, payload, page_size) =~= base);
}

/// With a flag set for every page of the base the rebased image is the
/// diff's payload, byte for byte, whatever the base holds.
pub proof fn lemma_overlay_all_present(
    base: Seq<u8>,
    flags: Seq<bool>,
    payload: Seq<u8>,
    page_size: int,
)
    requires
        0 < page_size,
        base.len() as int % page_size == 0,
        flags.len() == base.len() as int / page_size,
        payload.len() == spec_count_present(flags) * page_size,
        forall|i: int| 0 <= i < flags.len() ==> flags[i],
    ensures
        spec_overlay(base, flags, payload, page_size) == payload,
{
    let pages = base.len() as int / page_size;
    lemma_whole_pages(base.len() as int, page_size);
    lemma_count_present_all(flags);
    let image = spec_overlay(base, flags, payload, page_size);
    assert(image.len() == payload.len());
    assert forall|k: int| 0 <= k < image.len() implies image[k] == payload[k] by {
        lemma_page_of_byte(k, pages, page_size);
        let page = k / page_size;
        lemma_count_present_all(flags.take(page));
    }
    assert(image =~= payload);
}

/// Rebase correctness for whole files: wherever a rebase succeeds, the
/// result is as long as the base, and each of its pages is the diff's copy
/// of the page if the diff's flag for it is set and the base's page if not.
pub proof fn lemma_rebase_page(base: Seq<u8>, diff: Seq<u8>, page_size: u64, page: int)
    requires
        spec_rebase(base, diff, page_size) is Ok,
        0 <= page < base.len() as int / page_size as int,
    ensures
        ({
            let parsed = spec_parse_diff(diff)->Ok_0;
            let image = spec_rebase(base, diff, page_size)->Ok_0;
            let start = page * page_size;
            let stored = spec_count_present(parsed.flags.take(page)) * page_size;
            &&& image.len() == base.len()
            &&& 0 <= start
            &&& start + page_size <= base.len()
            &&& if page < parsed.flags.len() && parsed.flags[page] {
                &&& stored + page_size <= parsed.payload.len()
                &&& image.subrange(start, start + page_size) == parsed.payload.subrange(
                    stored,
                    stored + page_size,
                )
            } else {
                image.subrange(start, start + page_size) == base.subrange(
                    start,
                    start + page_size,
                )
            }
        }),
{
    let parsed = spec_parse_diff(diff)->Ok_0;
    lemma_overlay_page(base, parsed.flags, parsed.payload, page_size as int, page);
}

/// Rebasing with no flag set gives back the base, byte for byte.
pub proof fn lemma_rebase_none_present(base: Seq<u8>, diff: Seq<u8>, page_size: u64)
    requires
        spec_rebase(base, diff, page_size) is Ok,
        forall|i: int|
            0 <= i < (spec_parse_diff(diff)->Ok_0).flags.len() ==> !(spec_parse_diff(
                diff,
            )->Ok_0).flags[i],
    ensures
        spec_rebase(base, diff, page_size) == Ok::<Seq<u8>, EditMemoryError>(base),
{
    let parsed = spec_parse_diff(diff)->Ok_0;
    lemma_overlay_none_present(base, parsed.flags, parsed.payload, page_size as int);
}

/// Rebasing with a flag set for every page of the base gives the diff's
/// stored pages, byte for byte, whatever the base holds.
pub proof fn lemma_rebase_all_present(base: Seq<u8>, diff: Seq<u8>, page_size: u64)
    requires
        spec_rebase(base, diff, page_size) is Ok,
        (spec_parse_diff(diff)->Ok_0).flags.len() == base.len() as int / page_size as int,
        forall|i: int|
            0 <= i < (spec_parse_diff(diff)->Ok_0).flags.len() ==> (spec_parse_diff(
                diff,
            )->Ok_0).flags[i],
    ensures
        spec_rebase(base, diff, page_size) == Ok::<Seq<u8>, EditMemoryError>(
            (spec_parse_diff(diff)->Ok_0).payload,
        ),
{
    let parsed = spec_parse_diff(diff)->Ok_0;
    lemma_overlay_all_present(base, parsed.flags, parsed.payload, page_size as int);
}

/// Reads the three fields at the start of a diff file.
///
/// Fails with `FormatError` when `bytes` is shorter than the header.
pub fn parse_diff_header(bytes: &[u8]) -> (r: Result<DiffHeader, EditMemoryError>)
    ensures
        match r {
            Ok(header) => spec_diff_header(bytes@) == Some(header),
            Err(e) => e == EditMemoryError::FormatError && spec_diff_header(bytes@).is_none(),
        },
{
    if bytes.len() < DIFF_HEADER_LEN {
        return Err(EditMemoryError::FormatError);
    }
    Ok(
        DiffHeader {
            page_size: read_u64(bytes, 0),
            memory_size: read_u64(bytes, 8),
            page_count: read_u64(bytes, 16),
        },
    )
}

/// The number of bytes the packed bitmap of `page_count` pages takes.
pub fn bitmap_len(page_count: u64) -> (n: u64)
    ensures
        n == spec_bitmap_len(page_count),
{
    if page_count % 8 == 0 {
        page_count / 8
    } else {
        page_count / 8 + 1
    }
}

/// Takes a whole diff file apart.
///
/// Succeeds exactly on the buffers that [`spec_parse_diff`] accepts; the
/// stored pages are then `diff[payload_start..]`. Any other buffer is a
/// `FormatError`.
pub fn parse_diff(diff: &[u8]) -> (r: Result<DiffLayout, EditMemoryError>)
    ensures
        match r {
            Ok(layout) => {
                &&& layout.payload_start <= diff.len()
                &&& spec_parse_diff(diff@) == Ok::<DiffView, EditMemoryError>(
                    DiffView {
                        page_size: layout.page_size,
                        flags: layout.bitmap@,
                        payload: diff@.subrange(layout.payload_start as int, diff@.len() as int),
                    },
                )
            },
            Err(e) => spec_parse_diff(diff@) == Err::<DiffView, EditMemoryError>(e),
        },
{
    let header = match parse_diff_header(diff) {
        Ok(header) => header,
        Err(e) => {
            return Err(e);
        },
    };
    let bitmap_bytes = bitmap_len(header.page_count);
    if bitmap_bytes > (diff.len() - DIFF_HEADER_LEN) as u64 {
        return Err(EditMemoryError::FormatError);
    }
    let payload_start = DIFF_HEADER_LEN + bitmap_bytes as usize;
    let bits = slice_subrange(diff, DIFF_HEADER_LEN, payload_start);
    match PageBitmap::from_packed(bits, header.page_count, header.memory_size, header.page_size) {
        Ok(bitmap) => Ok(DiffLayout { page_size: header.page_size, bitmap, payload_start }),
        Err(e) => Err(e),
    }
}

/// The plan of one rebase: which file each page of the output comes from,
/// and where in that file it lies. It hands the pages out one at a time, in
/// ascending order, so that the caller can copy them without holding either
/// file in memory.
#[derive(Clone, Debug, PartialEq, Eq)]
pub struct MemoryRebaser {
    page_size: u64,
    base_pages: u64,
    bitmap: PageBitmap,
    next_page: u64,
    next_diff_page: u64,
}

impl MemoryRebaser {
    /// Bytes in a page.
    pub closed spec fn spec_page_size(&self) -> u64 {
        self.page_size
    }

    /// Pages in the base, and so in the output.
    pub closed spec fn spec_base_pages(&self) -> u64 {
        self.base_pages
    }

    /// The diff's flags, one per page it covers.
    pub closed spec fn spec_flags(&self) -> Seq<bool> {
        self.bitmap@
    }

    /// The page that the next step produces.
    pub closed spec fn spec_next_page(&self) -> u64 {
        self.next_page
    }

    /// What holds of every plan that [`new`](Self::new) made and that
    /// [`next_copy`](Self::next_copy) advanced.
    pub closed spec fn wf(&self) -> bool {
        &&& self.page_size > 0
        &&& self.base_pages * self.page_size <= u64::MAX
        &&& self.bitmap@.len() <= self.base_pages
        &&& self.next_page <= self.base_pages
        &&& self.next_diff_page == spec_count_present(
            self.bitmap@.take(
                if self.next_page <= self.bitmap@.len() {
                    self.next_page as int
                } else {
                    self.bitmap@.len() as int
                },
            ),
        )
    }

    /// Plans the rebase of a diff with page size `diff_page_size`, bitmap
    /// `bitmap` and `diff_payload_len` bytes of stored pages onto a base of
    /// `base_len` bytes in pages of `page_size` bytes.
    ///
    /// Fails exactly when [`spec_plan_error`] names an error, with that
    /// error.
    pub fn new(
        base_len: u64,
        page_size: u64,
        diff_page_size: u64,
        bitmap: PageBitmap,
        diff_payload_len: u64,
    ) -> (r: Result<MemoryRebaser, EditMemoryError>)
        ensures
            match spec_plan_error(
                base_len as int,
                page_size,
                diff_page_size,
                bitmap@,
                diff_payload_len as int,
            ) {
                Some(e) => r == Err::<MemoryRebaser, EditMemoryError>(e),
                None => r matches Ok(plan) && {
                    &&& plan.wf()
                    &&& plan.spec_page_size() == page_size
                    &&& plan.spec_base_pages() == base_len as int / page_size as int
                    &&& plan.spec_flags() == bitmap@
                    &&& plan.spec_next_page() == 0
                },
            },
    {
        if page_size == 0 || base_len % page_size != 0 {
            return Err(EditMemoryError::FormatError);
        }
        let base_pages = base_len / page_size;
        let page_count = bitmap.page_count();
        if diff_page_size != page_size || page_count as u64 > base_pages {
            return Err(EditMemoryError::SizeMismatch);
        }
        let present = bitmap.present_count();
        proof {
            lemma_whole_pages(base_len as int, page_size as int);
            lemma_count_present_bounds(bitmap@, bitmap@.len() as int);
            assert(present * page_size <= base_pages * page_size) by (nonlinear_arith)
                requires
                    present <= base_pages,
                    0 < page_size,
            ;
            assert(bitmap@.take(0) =~= Seq::<bool>::empty());
        }
        if diff_payload_len != present as u64 * page_size {
            return Err(EditMemoryError::FormatError);
        }
        Ok(MemoryRebaser { page_size, base_pages, bitmap, next_page: 0, next_diff_page: 0 })
    }

    /// Hands out the step for the next page of the output, or `None` once
    /// every page of the base has been produced. The pages come in
    /// ascending order, each exactly once.
    pub fn next_copy(&mut self) -> (r: Option<PageCopy>)
        requires
            old(self).wf(),
        ensures
            final(self).wf(),
            final(self).spec_page_size() == old(self).spec_page_size(),
            final(self).spec_base_pages() == old(self).spec_base_pages(),
            final(self).spec_flags() == old(self).spec_flags(),
            if old(self).spec_next_page() < old(self).spec_base_pages() {
                &&& r == Some(
                    spec_page_copy(
                        old(self).spec_flags(),
                        old(self).spec_page_size(),
                        old(self).spec_next_page() as int,
                    ),
                )
                &&& final(self).spec_next_page() == old(self).spec_next_page() + 1
            } else {
                &&& r.is_none()
                &&& final(self).spec_next_page() == old(self).spec_next_page()
            },
    {
        if self.next_page >= self.base_pages {
            return None;
        }
        let page = self.next_page;
        let ghost flags = self.bitmap@;
        let covered = page < self.bitmap.page_count() as u64;
        let present = if covered {
            match self.bitmap.is_present(page as usize) {
                Ok(present) => present,
                Err(_) => false,
            }
        } else {
            false
        };
        proof {
            if covered {
                lemma_count_present_step(flags, page as int);
                lemma_count_present_bounds(flags, page as int);
            }
            lemma_page_span(page as int, self.base_pages as int, self.page_size as int);
            if present {
                lemma_page_span(
                    self.next_diff_page as int,
                    self.base_pages as int,
                    self.page_size as int,
                );
            }
        }
        let copy = if present {
            PageCopy {
                source: PageSource::Diff,
                offset: self.next_diff_page * self.page_size,
                length: self.page_size,
            }
        } else {
            PageCopy { source: PageSource::Base, offset: page * self.page_size, length: self.page_size }
        };
        if present {
            self.next_diff_page = self.next_diff_page + 1;
        }
        self.next_page = page + 1;
        Some(copy)
    }

    /// The number of pages still to be produced.
    pub fn remaining(&self) -> (n: u64)
        requires
            self.wf(),
        ensures
            n == self.spec_base_pages() - self.spec_next_page(),
    {
        self.base_pages - self.next_page
    }
}

/// Rebases the diff file `diff` onto `base`, a flat image in pages of
/// `page_size` bytes, and returns the rebased image.
///
/// The result is as long as the base. Every page of it is copied whole from
/// the diff where the diff's bitmap has the page and from the base where it
/// has not. Neither input is changed.
pub fn rebase(base: &[u8], diff: &[u8], page_size: u64) -> (r: Result<Vec<u8>, EditMemoryError>)
    ensures
        match r {
            Ok(image) => spec_rebase(base@, diff@, page_size) == Ok::<Seq<u8>, EditMemoryError>(
                image@,
            ),
            Err(e) => spec_rebase(base@, diff@, page_size) == Err::<Seq<u8>, EditMemoryError>(e),
        },
{
    let layout = match parse_diff(diff) {
        Ok(layout) => layout,
        Err(e) => {
            return Err(e);
        },
    };
    let payload = slice_subrange(diff, layout.payload_start, diff.len());
    let ghost flags = layout.bitmap@;
    let mut plan = match MemoryRebaser::new(
        base.len() as u64,
        page_size,
        layout.page_size,
        layout.bitmap,
        payload.len() as u64,
    ) {
        Ok(plan) => plan,
        Err(e) => {
            return Err(e);
        },
    };
    let ghost image = spec_overlay(base@, flags, payload@, page_size as int);
    let mut out: Vec<u8> = Vec::with_capacity(base.len());
    proof {
        lemma_whole_pages(base@.len() as int, page_size as int);
        assert(out@ =~= image.subrange(0, 0));
    }
    loop
        invariant
            plan.wf(),
            plan.spec_page_size() == page_size,
            plan.spec_flags() == flags,
            plan.spec_base_pages() == base@.len() as int / page_size as int,
            0 < page_size,
            base@.len() == base.len(),
            payload@.len() == payload.len(),
            base@.len() as int % (page_size as int) == 0,
            plan.spec_base_pages() * page_size == base@.len(),
            flags.len() <= plan.spec_base_pages(),
            payload@.len() == spec_count_present(flags) * page_size,
            image == spec_overlay(base@, flags, payload@, page_size as int),
            plan.spec_next_page() <= plan.spec_base_pages(),
            plan.spec_next_page() * page_size <= base@.len(),
            out@ == image.subrange(0, plan.spec_next_page() * page_size),
        ensures
            out@ == image,
        decreases plan.spec_base_pages() - plan.spec_next_page(),
    {
        let ghost page = plan.spec_next_page() as int;
        let ghost done = out@;
        proof {
            if page < plan.spec_base_pages() {
                lemma_overlay_page(base@, flags, payload@, page_size as int, page);
                lemma_page_span(page, plan.spec_base_pages() as int, page_size as int);
            } else {
                assert(image.subrange(0, page * page_size) =~= image);
            }
        }
        match plan.next_copy() {
            None => {
                break ;
            },
            Some(copy) => {
                let start = copy.offset as usize;
                let end = start + copy.length as usize;
                match copy.source {
                    PageSource::Base => write_bytes(&mut out, slice_subrange(base, start, end)),
                    PageSource::Diff => write_bytes(&mut out, slice_subrange(payload, start, end)),
                }
                proof {
                    assert(out@ =~= image.subrange(0, page * page_size + page_size));
                }
            },
        }
    }
    Ok(out)
}

} // verus!
