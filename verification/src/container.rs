//! The versioned, section-based vmstate container: its in-memory form, its
//! byte layout, and the parser and serializer between the two.
//!
//! Layout, all integers little-endian:
//!
//! ```text
//! magic (8) | format_version (4) | total_length (8) | section* | checksum (4)
//! section = type_id (4) | version (4) | length (8) | payload (length)
//! ```
//!
//! `total_length` counts the header and every section. The checksum is the
//! Adler-32 of those `total_length` bytes and trails them.

use crate::checksum::{adler32, lemma_adler32_detects_byte_change, spec_adler32};
use crate::codec::{lemma_u32_field_injective, read_u32, read_u64, write_bytes, write_u32, write_u64};
use vstd::bytes::*;
use vstd::prelude::*;
use vstd::slice::*;

verus! {

/// The eight bytes `VMSTATE\0`, read as a little-endian integer.
pub const MAGIC: u64 = 0x0045_5441_5453_4d56;

/// Bytes taken by the magic, the format version and the total length.
pub const HEADER_LEN: usize = 20;

/// Offset of the format version inside the header.
pub const VERSION_OFFSET: usize = 8;

/// Offset of the total length inside the header.
pub const LENGTH_OFFSET: usize = 12;

/// Bytes taken by a section's type, version and payload length.
pub const SECTION_HEADER_LEN: usize = 16;

/// Bytes taken by the trailing checksum.
pub const CHECKSUM_LEN: usize = 4;

/// The container format versions this build understands.
#[derive(Clone, Copy, Debug, PartialEq, Eq, Structural)]
pub enum FormatVersion {
    /// Sections carry 32-bit type and version fields and a 64-bit length.
    V1,
}

impl FormatVersion {
    /// The version that the number `raw` stands for, if it is supported.
    pub open spec fn spec_from_raw(raw: u32) -> Option<FormatVersion> {
        if raw == 1 {
            Some(FormatVersion::V1)
        } else {
            None
        }
    }

    /// The number written to the header for this version.
    pub open spec fn spec_raw(self) -> u32 {
        match self {
            FormatVersion::V1 => 1,
        }
    }

    /// Looks up the version that the number `raw` stands for.
    pub fn from_raw(raw: u32) -> (version: Option<FormatVersion>)
        ensures
            version == Self::spec_from_raw(raw),
    {
        if raw == 1 {
            Some(FormatVersion::V1)
        } else {
            None
        }
    }

    /// The number written to the header for this version.
    pub fn raw(self) -> (raw: u32)
        ensures
            raw == self.spec_raw(),
            Self::spec_from_raw(raw) == Some(self),
    {
        match self {
            FormatVersion::V1 => 1,
        }
    }
}

/// Why a byte buffer was not accepted as a container.
#[derive(Clone, Copy, Debug, PartialEq, Eq, Structural)]
pub enum VmStateError {
    /// The magic, a length or the checksum did not validate.
    CorruptContainer,
    /// The header names a format version this build does not understand.
    UnsupportedVersion(u32),
}

/// One typed, versioned blob inside a container. Its declared length is the
/// length of `payload`.
#[derive(Clone, Debug, PartialEq, Eq)]
pub struct Section {
    pub type_id: u32,
    pub version: u32,
    pub payload: Vec<u8>,
}

/// Mathematical model of a [`Section`].
pub struct SectionView {
    pub type_id: u32,
    pub version: u32,
    pub payload: Seq<u8>,
}

impl View for Section {
    type V = SectionView;

    open spec fn view(&self) -> SectionView {
        SectionView { type_id: self.type_id, version: self.version, payload: self.payload@ }
    }
}

impl Section {
    /// The declared length of the section: the number of payload bytes.
    pub fn length(&self) -> (n: usize)
        ensures
            n == self@.payload.len(),
    {
        self.payload.len()
    }
}

/// The header fields that are stored next to the sections. The magic is a
/// constant of the format and is not kept.
///
/// `total_length` and `checksum` describe the bytes the container was parsed
/// from. Editing the sections leaves them stale; serializing recomputes them.
#[derive(Clone, Copy, Debug, PartialEq, Eq, Structural)]
pub struct Header {
    pub format_version: FormatVersion,
    pub total_length: u64,
    pub checksum: u32,
}

/// A parsed vmstate container: header fields and the sections in file order.
#[derive(Clone, Debug, PartialEq, Eq)]
pub struct VmStateContainer {
    pub header: Header,
    pub sections: Vec<Section>,
}

/// Mathematical model of a [`VmStateContainer`].
pub struct ContainerView {
    pub header: Header,
    pub sections: Seq<SectionView>,
}

/// The models of a run of sections, in order.
pub open spec fn spec_section_views(sections: Seq<Section>) -> Seq<SectionView> {
    Seq::new(sections.len(), |i: int| sections[i]@)
}

impl View for VmStateContainer {
    type V = ContainerView;

    open spec fn view(&self) -> ContainerView {
        ContainerView { header: self.header, sections: spec_section_views(self.sections@) }
    }
}

/// The bytes of one section: its three header fields, then the payload.
pub open spec fn spec_section_bytes(section: SectionView) -> Seq<u8> {
    spec_u32_to_le_bytes(section.type_id) + spec_u32_to_le_bytes(section.version)
        + spec_u64_to_le_bytes(section.payload.len() as u64) + section.payload
}

/// The bytes of a run of sections: each section's bytes, in order.
pub open spec fn spec_sections_bytes(sections: Seq<SectionView>) -> Seq<u8>
    decreases sections.len(),
{
    if sections.len() == 0 {
        Seq::empty()
    } else {
        spec_section_bytes(sections.first()) + spec_sections_bytes(sections.drop_first())
    }
}

/// The value of the header's length field: header plus sections.
pub open spec fn spec_total_length(sections: Seq<SectionView>) -> int {
    HEADER_LEN + spec_sections_bytes(sections).len()
}

/// The length of the whole serialized container, checksum included.
pub open spec fn spec_serialized_len(sections: Seq<SectionView>) -> int {
    spec_total_length(sections) + CHECKSUM_LEN
}

/// The bytes of the header.
pub open spec fn spec_header_bytes(version: FormatVersion, total_length: u64) -> Seq<u8> {
    spec_u64_to_le_bytes(MAGIC) + spec_u32_to_le_bytes(version.spec_raw()) + spec_u64_to_le_bytes(
        total_length,
    )
}

/// The bytes the checksum covers: the header followed by the sections.
pub open spec fn spec_body_bytes(version: FormatVersion, sections: Seq<SectionView>) -> Seq<u8> {
    spec_header_bytes(version, spec_total_length(sections) as u64) + spec_sections_bytes(sections)
}

/// The serialized container: the body followed by its checksum.
pub open spec fn spec_serialize(version: FormatVersion, sections: Seq<SectionView>) -> Seq<u8> {
    let body = spec_body_bytes(version, sections);
    body + spec_u32_to_le_bytes(spec_adler32(body))
}

/// The header that serializing `sections` under `version` writes.
pub open spec fn spec_fresh_header(version: FormatVersion, sections: Seq<SectionView>) -> Header {
    Header {
        format_version: version,
        total_length: spec_total_length(sections) as u64,
        checksum: spec_adler32(spec_body_bytes(version, sections)),
    }
}

/// The sections that `s` spells out, or `None` if `s` is not a whole number
/// of well-formed sections.
pub open spec fn spec_parse_sections(s: Seq<u8>) -> Option<Seq<SectionView>>
    decreases s.len(),
{
    if s.len() == 0 {
        Some(Seq::empty())
    } else if s.len() < SECTION_HEADER_LEN {
        None
    } else {
        let length = spec_u64_from_le_bytes(s.subrange(8, 16));
        if length > s.len() - SECTION_HEADER_LEN {
            None
        } else {
            let section = SectionView {
                type_id: spec_u32_from_le_bytes(s.subrange(0, 4)),
                version: spec_u32_from_le_bytes(s.subrange(4, 8)),
                payload: s.subrange(SECTION_HEADER_LEN as int, SECTION_HEADER_LEN + length),
            };
            match spec_parse_sections(s.subrange(SECTION_HEADER_LEN + length, s.len() as int)) {
                Some(rest) => Some(seq![section] + rest),
                None => None,
            }
        }
    }
}

/// The container that `s` spells out, or the reason it is rejected.
///
/// The checks run in file order: size, magic, format version, total length,
/// sections, checksum. The first one that fails decides the error.
pub open spec fn spec_parse(s: Seq<u8>) -> Result<ContainerView, VmStateError> {
    if s.len() < HEADER_LEN + CHECKSUM_LEN {
        Err(VmStateError::CorruptContainer)
    } else if spec_u64_from_le_bytes(s.subrange(0, VERSION_OFFSET as int)) != MAGIC {
        Err(VmStateError::CorruptContainer)
    } else {
        let raw = spec_u32_from_le_bytes(s.subrange(VERSION_OFFSET as int, LENGTH_OFFSET as int));
        match FormatVersion::spec_from_raw(raw) {
            None => Err(VmStateError::UnsupportedVersion(raw)),
            Some(version) => {
                let total = spec_u64_from_le_bytes(
                    s.subrange(LENGTH_OFFSET as int, HEADER_LEN as int),
                );
                if total + CHECKSUM_LEN != s.len() {
                    Err(VmStateError::CorruptContainer)
                } else {
                    match spec_parse_sections(s.subrange(HEADER_LEN as int, total as int)) {
                        None => Err(VmStateError::CorruptContainer),
                        Some(sections) => {
                            let checksum = spec_u32_from_le_bytes(
                                s.subrange(total as int, s.len() as int),
                            );
                            if checksum != spec_adler32(s.subrange(0, total as int)) {
                                Err(VmStateError::CorruptContainer)
                            } else {
                                Ok(
                                    ContainerView {
                                        header: Header {
                                            format_version: version,
                                            total_length: total,
                                            checksum,
                                        },
                                        sections,
                                    },
                                )
                            }
                        },
                    }
                }
            },
        }
    }
}

/// `done` followed by whatever `rest` holds, if it holds anything.
pub open spec fn spec_prepend(done: Seq<SectionView>, rest: Option<Seq<SectionView>>) -> Option<
    Seq<SectionView>,
> {
    match rest {
        Some(tail) => Some(done + tail),
        None => None,
    }
}

/// Parses the sections stored in `bytes[start..end]`.
fn parse_sections(bytes: &[u8], start: usize, end: usize) -> (r: Option<Vec<Section>>)
    requires
        start <= end <= bytes@.len(),
    ensures
        match r {
            Some(sections) => spec_parse_sections(bytes@.subrange(start as int, end as int))
                == Some(spec_section_views(sections@)),
            None => spec_parse_sections(bytes@.subrange(start as int, end as int)).is_none(),
        },
{
    let mut sections: Vec<Section> = Vec::new();
    let mut pos: usize = start;
    assert(spec_section_views(sections@) + spec_parse_sections(
        bytes@.subrange(start as int, end as int),
    ).unwrap() =~= spec_parse_sections(bytes@.subrange(start as int, end as int)).unwrap());
    while pos < end
        invariant
            start <= pos <= end <= bytes@.len(),
            spec_prepend(
                spec_section_views(sections@),
                spec_parse_sections(bytes@.subrange(pos as int, end as int)),
            ) == spec_parse_sections(bytes@.subrange(start as int, end as int)),
        decreases end - pos,
    {
        let ghost rest = bytes@.subrange(pos as int, end as int);
        if end - pos < SECTION_HEADER_LEN {
            return None;
        }
        let type_id = read_u32(bytes, pos);
        let version = read_u32(bytes, pos + 4);
        let length = read_u64(bytes, pos + 8);
        proof {
            assert(rest.subrange(0, 4) =~= bytes@.subrange(pos as int, pos + 4));
            assert(rest.subrange(4, 8) =~= bytes@.subrange(pos + 4, pos + 8));
            assert(rest.subrange(8, 16) =~= bytes@.subrange(pos + 8, pos + 16));
        }
        let available = end - pos - SECTION_HEADER_LEN;
        if length > available as u64 {
            return None;
        }
        let payload_start = pos + SECTION_HEADER_LEN;
        let payload_end = payload_start + length as usize;
        let payload = slice_to_vec(slice_subrange(bytes, payload_start, payload_end));
        let section = Section { type_id, version, payload };
        proof {
            assert(rest.subrange(SECTION_HEADER_LEN as int, SECTION_HEADER_LEN + length)
                =~= bytes@.subrange(payload_start as int, payload_end as int));
            assert(rest.subrange(SECTION_HEADER_LEN + length, rest.len() as int) =~= bytes@.subrange(
                payload_end as int,
                end as int,
            ));
            let after = spec_parse_sections(bytes@.subrange(payload_end as int, end as int));
            assert(spec_parse_sections(rest) == spec_prepend(seq![section@], after));
            let done = spec_section_views(sections@);
            assert(spec_section_views(sections@.push(section)) =~= done + seq![section@]);
            if after.is_some() {
                assert((done + seq![section@]) + after.unwrap() =~= done + (seq![section@]
                    + after.unwrap()));
            }
        }
        sections.push(section);
        pos = payload_end;
    }
    proof {
        assert(bytes@.subrange(pos as int, end as int) =~= Seq::<u8>::empty());
        assert(spec_section_views(sections@) + Seq::<SectionView>::empty() =~= spec_section_views(
            sections@,
        ));
    }
    Some(sections)
}

impl VmStateContainer {
    /// Parses a container from `bytes`.
    ///
    /// Succeeds exactly on the buffers that [`spec_parse`] accepts, with the
    /// container it describes; any other buffer is rejected with the error
    /// that [`spec_parse`] gives. Nothing is returned for a buffer that is
    /// only partly well-formed.
    pub fn parse(bytes: &[u8]) -> (r: Result<VmStateContainer, VmStateError>)
        ensures
            match r {
                Ok(container) => spec_parse(bytes@) == Ok::<ContainerView, VmStateError>(
                    container@,
                ),
                Err(e) => spec_parse(bytes@) == Err::<ContainerView, VmStateError>(e),
            },
    {
        let n = bytes.len();
        if n < HEADER_LEN + CHECKSUM_LEN {
            return Err(VmStateError::CorruptContainer);
        }
        if read_u64(bytes, 0) != MAGIC {
            return Err(VmStateError::CorruptContainer);
        }
        let raw = read_u32(bytes, VERSION_OFFSET);
        let format_version = match FormatVersion::from_raw(raw) {
            Some(version) => version,
            None => {
                return Err(VmStateError::UnsupportedVersion(raw));
            },
        };
        let total_length = read_u64(bytes, LENGTH_OFFSET);
        let end = n - CHECKSUM_LEN;
        if total_length != end as u64 {
            return Err(VmStateError::CorruptContainer);
        }
        let sections = match parse_sections(bytes, HEADER_LEN, end) {
            Some(sections) => sections,
            None => {
                return Err(VmStateError::CorruptContainer);
            },
        };
        let checksum = read_u32(bytes, end);
        if checksum != adler32(slice_subrange(bytes, 0, end)) {
            return Err(VmStateError::CorruptContainer);
        }
        Ok(VmStateContainer { header: Header { format_version, total_length, checksum }, sections })
    }

    /// The number of bytes that [`serialize`](Self::serialize) writes, or
    /// `None` if that number does not fit in `usize`.
    pub fn serialized_len(&self) -> (r: Option<usize>)
        ensures
            match r {
                Some(n) => n == spec_serialized_len(self@.sections),
                None => spec_serialized_len(self@.sections) > usize::MAX,
            },
    {
        let ghost views = self@.sections;
        let mut total: usize = HEADER_LEN + CHECKSUM_LEN;
        let mut i: usize = 0;
        proof {
            assert(views.take(0) =~= Seq::<SectionView>::empty());
        }
        while i < self.sections.len()
            invariant
                i <= self.sections.len(),
                views == self@.sections,
                total == HEADER_LEN + CHECKSUM_LEN + spec_sections_bytes(views.take(i as int)).len(),
            decreases self.sections.len() - i,
        {
            proof {
                assert(views.take(i + 1) =~= views.take(i as int).push(views[i as int]));
                lemma_sections_bytes_push(views.take(i as int), views[i as int]);
                lemma_section_bytes_len(views[i as int]);
                lemma_sections_bytes_prefix(views, i + 1);
            }
            let with_header = match total.checked_add(SECTION_HEADER_LEN) {
                Some(sum) => sum,
                None => {
                    return None;
                },
            };
            total = match with_header.checked_add(self.sections[i].payload.len()) {
                Some(sum) => sum,
                None => {
                    return None;
                },
            };
            i += 1;
        }
        proof {
            assert(views.take(i as int) =~= views);
        }
        Some(total)
    }

    /// Serializes the container: the header with `total_length` recomputed
    /// from the sections as they are now, the sections in their current
    /// order, and the checksum of all of that. The stored `total_length` and
    /// `checksum` are not consulted.
    ///
    /// Returns `None` exactly when the result would not fit in `usize`.
    pub fn serialize(&self) -> (r: Option<Vec<u8>>)
        ensures
            match r {
                Some(out) => {
                    &&& spec_serialized_len(self@.sections) <= usize::MAX
                    &&& out@ == spec_serialize(self.header.format_version, self@.sections)
                },
                None => spec_serialized_len(self@.sections) > usize::MAX,
            },
    {
        let n = match self.serialized_len() {
            Some(n) => n,
            None => {
                return None;
            },
        };
        let ghost views = self@.sections;
        let version = self.header.format_version;
        let total = (n - CHECKSUM_LEN) as u64;
        let mut out: Vec<u8> = Vec::with_capacity(n);
        write_u64(&mut out, MAGIC);
        write_u32(&mut out, version.raw());
        write_u64(&mut out, total);
        let mut i: usize = 0;
        proof {
            assert(views.take(0) =~= Seq::<SectionView>::empty());
            assert(out@ =~= spec_header_bytes(version, total));
        }
        while i < self.sections.len()
            invariant
                i <= self.sections.len(),
                views == self@.sections,
                out@ == spec_header_bytes(version, total) + spec_sections_bytes(
                    views.take(i as int),
                ),
            decreases self.sections.len() - i,
        {
            let section = &self.sections[i];
            proof {
                assert(views.take(i + 1) =~= views.take(i as int).push(views[i as int]));
                lemma_sections_bytes_push(views.take(i as int), views[i as int]);
            }
            let ghost before = out@;
            write_u32(&mut out, section.type_id);
            write_u32(&mut out, section.version);
            write_u64(&mut out, section.payload.len() as u64);
            write_bytes(&mut out, section.payload.as_slice());
            proof {
                assert(out@ =~= before + spec_section_bytes(views[i as int]));
                assert(out@ =~= spec_header_bytes(version, total) + (spec_sections_bytes(
                    views.take(i as int),
                ) + spec_section_bytes(views[i as int])));
            }
            i += 1;
        }
        proof {
            assert(views.take(i as int) =~= views);
        }
        let checksum = adler32(out.as_slice());
        write_u32(&mut out, checksum);
        Some(out)
    }
}

/// A section takes its sixteen header bytes and its payload.
pub proof fn lemma_section_bytes_len(section: SectionView)
    ensures
        spec_section_bytes(section).len() == SECTION_HEADER_LEN + section.payload.len(),
{
    lemma_auto_spec_u32_to_from_le_bytes();
    lemma_auto_spec_u64_to_from_le_bytes();
}

/// The header takes twenty bytes.
pub proof fn lemma_header_bytes_len(version: FormatVersion, total_length: u64)
    ensures
        spec_header_bytes(version, total_length).len() == HEADER_LEN,
{
    lemma_auto_spec_u32_to_from_le_bytes();
    lemma_auto_spec_u64_to_from_le_bytes();
}

/// The bytes of two runs of sections laid end to end are the bytes of the
/// joined run.
pub proof fn lemma_sections_bytes_concat(a: Seq<SectionView>, b: Seq<SectionView>)
    ensures
        spec_sections_bytes(a + b) == spec_sections_bytes(a) + spec_sections_bytes(b),
    decreases a.len(),
{
    if a.len() == 0 {
        assert(a + b =~= b);
        assert(spec_sections_bytes(a) + spec_sections_bytes(b) =~= spec_sections_bytes(b));
    } else {
        assert((a + b).drop_first() =~= a.drop_first() + b);
        lemma_sections_bytes_concat(a.drop_first(), b);
        assert(spec_sections_bytes(a + b) =~= spec_sections_bytes(a) + spec_sections_bytes(b));
    }
}

/// Appending one section appends its bytes.
pub proof fn lemma_sections_bytes_push(sections: Seq<SectionView>, section: SectionView)
    ensures
        spec_sections_bytes(sections.push(section)) == spec_sections_bytes(sections)
            + spec_section_bytes(section),
{
    let one = seq![section];
    assert(one.first() == section);
    assert(one.drop_first() =~= Seq::<SectionView>::empty());
    assert(spec_sections_bytes(one.drop_first()) =~= Seq::<u8>::empty());
    assert(spec_sections_bytes(one) =~= spec_section_bytes(section));
    assert(sections.push(section) =~= sections + one);
    lemma_sections_bytes_concat(sections, one);
}

/// The bytes of the first `k` sections open the bytes of all of them.
pub proof fn lemma_sections_bytes_prefix(sections: Seq<SectionView>, k: int)
    requires
        0 <= k <= sections.len(),
    ensures
        spec_sections_bytes(sections.take(k)).len() <= spec_sections_bytes(sections).len(),
        spec_sections_bytes(sections) == spec_sections_bytes(sections.take(k))
            + spec_sections_bytes(sections.skip(k)),
{
    assert(sections =~= sections.take(k) + sections.skip(k));
    lemma_sections_bytes_concat(sections.take(k), sections.skip(k));
}

/// Every section lies wholly inside the bytes of the run it belongs to.
pub proof fn lemma_section_within_run(sections: Seq<SectionView>, i: int)
    requires
        0 <= i < sections.len(),
    ensures
        SECTION_HEADER_LEN + sections[i].payload.len() <= spec_sections_bytes(sections).len(),
{
    lemma_sections_bytes_prefix(sections, i);
    let tail = sections.skip(i);
    assert(tail.first() == sections[i]);
    lemma_section_bytes_len(sections[i]);
}

/// Parsing the bytes of a run of sections gives the run back.
pub proof fn lemma_parse_sections_of_bytes(sections: Seq<SectionView>)
    requires
        spec_sections_bytes(sections).len() <= u64::MAX,
    ensures
        spec_parse_sections(spec_sections_bytes(sections)) == Some(sections),
    decreases sections.len(),
{
    lemma_auto_spec_u32_to_from_le_bytes();
    lemma_auto_spec_u64_to_from_le_bytes();
    if sections.len() == 0 {
        assert(sections =~= Seq::<SectionView>::empty());
    } else {
        let first = sections.first();
        let rest = sections.drop_first();
        let s = spec_sections_bytes(sections);
        let length = first.payload.len();
        lemma_section_bytes_len(first);
        lemma_section_within_run(sections, 0);
        assert(s.subrange(0, 4) =~= spec_u32_to_le_bytes(first.type_id));
        assert(s.subrange(4, 8) =~= spec_u32_to_le_bytes(first.version));
        assert(s.subrange(8, 16) =~= spec_u64_to_le_bytes(length as u64));
        assert(s.subrange(SECTION_HEADER_LEN as int, SECTION_HEADER_LEN + length)
            =~= first.payload);
        assert(s.subrange(SECTION_HEADER_LEN + length, s.len() as int) =~= spec_sections_bytes(
            rest,
        ));
        lemma_parse_sections_of_bytes(rest);
        assert(seq![first] + rest =~= sections);
    }
}

/// Whatever parses as a run of sections is exactly the bytes of that run.
pub proof fn lemma_sections_bytes_of_parse(s: Seq<u8>)
    requires
        spec_parse_sections(s).is_some(),
    ensures
        spec_sections_bytes(spec_parse_sections(s).unwrap()) == s,
    decreases s.len(),
{
    lemma_auto_spec_u32_to_from_le_bytes();
    lemma_auto_spec_u64_to_from_le_bytes();
    if s.len() == 0 {
        assert(s =~= Seq::<u8>::empty());
    } else {
        let length = spec_u64_from_le_bytes(s.subrange(8, 16));
        let section = SectionView {
            type_id: spec_u32_from_le_bytes(s.subrange(0, 4)),
            version: spec_u32_from_le_bytes(s.subrange(4, 8)),
            payload: s.subrange(SECTION_HEADER_LEN as int, SECTION_HEADER_LEN + length),
        };
        let tail = s.subrange(SECTION_HEADER_LEN + length, s.len() as int);
        let rest = spec_parse_sections(tail).unwrap();
        lemma_sections_bytes_of_parse(tail);
        let sections = seq![section] + rest;
        assert(sections.first() == section);
        assert(sections.drop_first() =~= rest);
        assert(spec_u32_to_le_bytes(section.type_id) == s.subrange(0, 4));
        assert(spec_u32_to_le_bytes(section.version) == s.subrange(4, 8));
        assert(spec_u64_to_le_bytes(section.payload.len() as u64) == s.subrange(8, 16));
        assert(spec_section_bytes(section) + tail =~= s);
    }
}

/// Parsing what the serializer writes gives back the same format version and
/// sections, under a header whose `total_length` and `checksum` are current.
pub proof fn lemma_parse_of_serialize(version: FormatVersion, sections: Seq<SectionView>)
    requires
        spec_serialized_len(sections) <= u64::MAX,
    ensures
        spec_serialize(version, sections).len() == spec_serialized_len(sections),
        spec_parse(spec_serialize(version, sections)) == Ok::<ContainerView, VmStateError>(
            ContainerView { header: spec_fresh_header(version, sections), sections },
        ),
{
    lemma_auto_spec_u32_to_from_le_bytes();
    lemma_auto_spec_u64_to_from_le_bytes();
    let total = spec_total_length(sections);
    let header = spec_header_bytes(version, total as u64);
    let body = spec_body_bytes(version, sections);
    let bytes = spec_serialize(version, sections);
    lemma_header_bytes_len(version, total as u64);
    assert(bytes.subrange(0, VERSION_OFFSET as int) =~= spec_u64_to_le_bytes(MAGIC));
    assert(bytes.subrange(VERSION_OFFSET as int, LENGTH_OFFSET as int) =~= spec_u32_to_le_bytes(
        version.spec_raw(),
    ));
    assert(bytes.subrange(LENGTH_OFFSET as int, HEADER_LEN as int) =~= spec_u64_to_le_bytes(
        total as u64,
    ));
    assert(bytes.subrange(HEADER_LEN as int, total) =~= spec_sections_bytes(sections));
    assert(bytes.subrange(total, bytes.len() as int) =~= spec_u32_to_le_bytes(
        spec_adler32(body),
    ));
    assert(bytes.subrange(0, total) =~= body);
    lemma_parse_sections_of_bytes(sections);
}

/// A buffer that parses is, byte for byte, the serialization of what it
/// parses to, and the parsed header is current.
pub proof fn lemma_serialize_of_parse(bytes: Seq<u8>)
    requires
        spec_parse(bytes) is Ok,
    ensures
        ({
            let container = spec_parse(bytes)->Ok_0;
            &&& spec_serialize(container.header.format_version, container.sections) == bytes
            &&& container.header == spec_fresh_header(
                container.header.format_version,
                container.sections,
            )
            &&& spec_serialized_len(container.sections) == bytes.len()
        }),
{
    lemma_auto_spec_u32_to_from_le_bytes();
    lemma_auto_spec_u64_to_from_le_bytes();
    let container = spec_parse(bytes)->Ok_0;
    let version = container.header.format_version;
    let total = container.header.total_length;
    let stored = bytes.subrange(HEADER_LEN as int, total as int);
    lemma_sections_bytes_of_parse(stored);
    assert(spec_total_length(container.sections) == total);
    assert(spec_u64_to_le_bytes(MAGIC) == bytes.subrange(0, VERSION_OFFSET as int));
    assert(spec_u32_to_le_bytes(version.spec_raw()) == bytes.subrange(
        VERSION_OFFSET as int,
        LENGTH_OFFSET as int,
    ));
    assert(spec_u64_to_le_bytes(total) == bytes.subrange(LENGTH_OFFSET as int, HEADER_LEN as int));
    let body = spec_body_bytes(version, container.sections);
    assert(body =~= bytes.subrange(0, total as int));
    assert(spec_u32_to_le_bytes(container.header.checksum) == bytes.subrange(
        total as int,
        bytes.len() as int,
    ));
    assert(spec_serialize(version, container.sections) =~= bytes);
}

/// Round trip: serializing a parsed container and parsing the result gives
/// the container that was parsed in the first place.
pub proof fn lemma_parse_serialize_parse(bytes: Seq<u8>)
    requires
        spec_parse(bytes) is Ok,
    ensures
        ({
            let container = spec_parse(bytes)->Ok_0;
            spec_parse(spec_serialize(container.header.format_version, container.sections))
                == spec_parse(bytes)
        }),
{
    lemma_serialize_of_parse(bytes);
}

/// Changing any one byte of a serialized container outside the format
/// version field makes the parser reject it as corrupt.
pub proof fn lemma_byte_change_is_corrupt(
    version: FormatVersion,
    sections: Seq<SectionView>,
    i: int,
    value: u8,
)
    requires
        spec_serialized_len(sections) <= u64::MAX,
        0 <= i < spec_serialized_len(sections),
        value != spec_serialize(version, sections)[i],
        !(VERSION_OFFSET <= i < LENGTH_OFFSET),
    ensures
        spec_parse(spec_serialize(version, sections).update(i, value)) == Err::<
            ContainerView,
            VmStateError,
        >(VmStateError::CorruptContainer),
{
    lemma_auto_spec_u32_to_from_le_bytes();
    lemma_auto_spec_u64_to_from_le_bytes();
    lemma_parse_of_serialize(version, sections);
    let bytes = spec_serialize(version, sections);
    let changed = bytes.update(i, value);
    let total = spec_total_length(sections);
    let body = spec_body_bytes(version, sections);
    lemma_header_bytes_len(version, total as u64);
    assert(changed.subrange(VERSION_OFFSET as int, LENGTH_OFFSET as int) =~= bytes.subrange(
        VERSION_OFFSET as int,
        LENGTH_OFFSET as int,
    ));
    assert(bytes.subrange(0, total) =~= body);
    assert(bytes.subrange(total, bytes.len() as int) =~= spec_u32_to_le_bytes(
        spec_adler32(body),
    ));
    let read_total = spec_u64_from_le_bytes(
        changed.subrange(LENGTH_OFFSET as int, HEADER_LEN as int),
    );
    if read_total + CHECKSUM_LEN == changed.len() {
        let covered = changed.subrange(0, total);
        let stored = changed.subrange(total, changed.len() as int);
        if i < total {
            assert(covered =~= body.update(i, value));
            lemma_adler32_detects_byte_change(body, i, value);
            assert(stored =~= bytes.subrange(total, bytes.len() as int));
        } else {
            assert(covered =~= body);
            let untouched = bytes.subrange(total, bytes.len() as int);
            assert(stored[i - total] != untouched[i - total]);
            if spec_u32_from_le_bytes(stored) == spec_u32_from_le_bytes(untouched) {
                lemma_u32_field_injective(stored, untouched);
            }
        }
        assert(spec_u32_from_le_bytes(stored) != spec_adler32(covered));
    }
}

/// Changing any one byte of the format version field of a serialized
/// container makes the parser reject the version as unsupported.
pub proof fn lemma_version_change_is_unsupported(
    version: FormatVersion,
    sections: Seq<SectionView>,
    i: int,
    value: u8,
)
    requires
        spec_serialized_len(sections) <= u64::MAX,
        VERSION_OFFSET <= i < LENGTH_OFFSET,
        value != spec_serialize(version, sections)[i],
    ensures
        ({
            let changed = spec_serialize(version, sections).update(i, value);
            let raw = spec_u32_from_le_bytes(
                changed.subrange(VERSION_OFFSET as int, LENGTH_OFFSET as int),
            );
            spec_parse(changed) == Err::<ContainerView, VmStateError>(
                VmStateError::UnsupportedVersion(raw),
            )
        }),
{
    lemma_auto_spec_u32_to_from_le_bytes();
    lemma_auto_spec_u64_to_from_le_bytes();
    lemma_parse_of_serialize(version, sections);
    let bytes = spec_serialize(version, sections);
    let changed = bytes.update(i, value);
    let total = spec_total_length(sections);
    lemma_header_bytes_len(version, total as u64);
    assert(changed.subrange(0, VERSION_OFFSET as int) =~= bytes.subrange(
        0,
        VERSION_OFFSET as int,
    ));
    assert(bytes.subrange(0, VERSION_OFFSET as int) =~= spec_u64_to_le_bytes(MAGIC));
    let field = changed.subrange(VERSION_OFFSET as int, LENGTH_OFFSET as int);
    let untouched = bytes.subrange(VERSION_OFFSET as int, LENGTH_OFFSET as int);
    assert(untouched =~= spec_u32_to_le_bytes(version.spec_raw()));
    assert(field[i - VERSION_OFFSET] != untouched[i - VERSION_OFFSET]);
    if spec_u32_from_le_bytes(field) == spec_u32_from_le_bytes(untouched) {
        lemma_u32_field_injective(field, untouched);
    }
}

} // verus!
