//! Read-only summary of a parsed container.
//!
//! Every section is reported by its envelope: type, version and payload
//! length. Sections of a type whose layout is known here are decoded one
//! step further; a payload that does not follow that layout is marked as
//! undecodable and the report goes on.

use crate::container::{ContainerView, Section, SectionView, VmStateContainer};
use crate::codec::read_u32;
use vstd::bytes::spec_u32_from_le_bytes;
use vstd::prelude::*;

verus! {

/// Type of the section that holds the state of all vCPUs.
pub const VCPU_GROUP_TYPE_ID: u32 = 16;

/// Bytes taken by the vCPU count at the start of a vCPU group payload.
pub const VCPU_COUNT_LEN: usize = 4;

/// The section layouts that the inspector can read into.
#[derive(Clone, Copy, Debug, PartialEq, Eq, Structural)]
pub enum SectionKind {
    /// A 32-bit little-endian vCPU count followed by that many state
    /// records of one common, non-zero size.
    VcpuGroup,
    /// Any other type: reported by its envelope only.
    Unknown,
}

/// What the inspector found inside one section.
#[derive(Clone, Copy, Debug, PartialEq, Eq, Structural)]
pub enum SectionDetail {
    /// The type is not one the inspector reads into.
    Opaque,
    /// A vCPU group holding the state of `vcpu_count` vCPUs.
    VcpuGroup { vcpu_count: u32 },
    /// The type is known but the payload does not follow its layout.
    Undecodable,
}

/// One line of the report.
#[derive(Clone, Copy, Debug, PartialEq, Eq, Structural)]
pub struct SectionSummary {
    pub type_id: u32,
    pub version: u32,
    pub byte_length: u64,
    pub detail: SectionDetail,
}

/// The report on a container: its format version and one summary for each
/// section, in file order.
#[derive(Clone, Debug, PartialEq, Eq)]
pub struct InfoReport {
    pub format_version: u32,
    pub section_summaries: Vec<SectionSummary>,
}

/// Mathematical model of an [`InfoReport`].
pub struct ReportView {
    pub format_version: u32,
    pub section_summaries: Seq<SectionSummary>,
}

impl View for InfoReport {
    type V = ReportView;

    open spec fn view(&self) -> ReportView {
        ReportView {
            format_version: self.format_version,
            section_summaries: self.section_summaries@,
        }
    }
}

/// The layout that sections of type `type_id` follow.
pub open spec fn spec_kind_of(type_id: u32) -> SectionKind {
    if type_id == VCPU_GROUP_TYPE_ID {
        SectionKind::VcpuGroup
    } else {
        SectionKind::Unknown
    }
}

/// The vCPU count of a vCPU group payload, or `None` if the payload does not
/// follow the layout: it is shorter than the count field, or what follows
/// the count does not divide into that many non-empty records of one size.
pub open spec fn spec_vcpu_count(payload: Seq<u8>) -> Option<u32> {
    if payload.len() < VCPU_COUNT_LEN {
        None
    } else {
        let count = spec_u32_from_le_bytes(payload.subrange(0, VCPU_COUNT_LEN as int));
        let states = payload.len() - VCPU_COUNT_LEN;
        if count == 0 {
            if states == 0 {
                Some(count)
            } else {
                None
            }
        } else if states > 0 && states % (count as int) == 0 {
            Some(count)
        } else {
            None
        }
    }
}

/// What the inspector finds inside `section`.
pub open spec fn spec_detail(section: SectionView) -> SectionDetail {
    match spec_kind_of(section.type_id) {
        SectionKind::Unknown => SectionDetail::Opaque,
        SectionKind::VcpuGroup => match spec_vcpu_count(section.payload) {
            Some(vcpu_count) => SectionDetail::VcpuGroup { vcpu_count },
            None => SectionDetail::Undecodable,
        },
    }
}

/// The report line for `section`.
pub open spec fn spec_summary(section: SectionView) -> SectionSummary {
    SectionSummary {
        type_id: section.type_id,
        version: section.version,
        byte_length: section.payload.len() as u64,
        detail: spec_detail(section),
    }
}

/// The report lines for a run of sections.
pub open spec fn spec_summaries(sections: Seq<SectionView>) -> Seq<SectionSummary> {
    Seq::new(sections.len(), |i: int| spec_summary(sections[i]))
}

/// The report on `container`.
pub open spec fn spec_inspect(container: ContainerView) -> ReportView {
    ReportView {
        format_version: container.header.format_version.spec_raw(),
        section_summaries: spec_summaries(container.sections),
    }
}

/// Looks up the layout that sections of type `type_id` follow.
pub fn kind_of(type_id: u32) -> (kind: SectionKind)
    ensures
        kind == spec_kind_of(type_id),
{
    if type_id == VCPU_GROUP_TYPE_ID {
        SectionKind::VcpuGroup
    } else {
        SectionKind::Unknown
    }
}

/// Reads the vCPU count out of a vCPU group payload.
pub fn vcpu_count(payload: &[u8]) -> (count: Option<u32>)
    ensures
        count == spec_vcpu_count(payload@),
{
    if payload.len() < VCPU_COUNT_LEN {
        return None;
    }
    let count = read_u32(payload, 0);
    let states = payload.len() - VCPU_COUNT_LEN;
    if count == 0 {
        if states == 0 {
            Some(count)
        } else {
            None
        }
    } else if states > 0 && states % (count as usize) == 0 {
        Some(count)
    } else {
        None
    }
}

/// Summarizes one section. A payload that cannot be decoded is reported as
/// such; it is never an error.
pub fn summarize(section: &Section) -> (summary: SectionSummary)
    ensures
        summary == spec_summary(section@),
{
    let detail = match kind_of(section.type_id) {
        SectionKind::Unknown => SectionDetail::Opaque,
        SectionKind::VcpuGroup => match vcpu_count(section.payload.as_slice()) {
            Some(vcpu_count) => SectionDetail::VcpuGroup { vcpu_count },
            None => SectionDetail::Undecodable,
        },
    };
    SectionSummary {
        type_id: section.type_id,
        version: section.version,
        byte_length: section.payload.len() as u64,
        detail,
    }
}

/// Builds the report on `container`, which is left as it is.
pub fn inspect(container: &VmStateContainer) -> (report: InfoReport)
    ensures
        report@ == spec_inspect(container@),
{
    let mut section_summaries: Vec<SectionSummary> = Vec::new();
    let mut i: usize = 0;
    while i < container.sections.len()
        invariant
            i <= container.sections.len(),
            section_summaries@ == spec_summaries(container@.sections.take(i as int)),
        decreases container.sections.len() - i,
    {
        let summary = summarize(&container.sections[i]);
        section_summaries.push(summary);
        proof {
            assert(section_summaries@ =~= spec_summaries(container@.sections.take(i + 1)));
        }
        i += 1;
    }
    proof {
        assert(container@.sections.take(i as int) =~= container@.sections);
    }
    InfoReport { format_version: container.header.format_version.raw(), section_summaries }
}

/// Removing the section at `p` removes line `p` from the report and changes
/// nothing else in it.
pub proof fn lemma_inspect_after_remove(container: ContainerView, p: int)
    requires
        0 <= p < container.sections.len(),
    ensures
        ({
            let edited = ContainerView {
                header: container.header,
                sections: container.sections.remove(p),
            };
            &&& spec_inspect(edited).format_version == spec_inspect(container).format_version
            &&& spec_inspect(edited).section_summaries == spec_inspect(
                container,
            ).section_summaries.remove(p)
        }),
{
    assert(spec_summaries(container.sections.remove(p)) =~= spec_summaries(
        container.sections,
    ).remove(p));
}

} // verus!
