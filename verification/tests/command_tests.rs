use snapshot_editor::container::{FormatVersion, Header, Section, VmStateContainer, VmStateError};
use snapshot_editor::edit_memory::{edit_memory_command, EditMemoryError, EditMemorySubCommand};
use snapshot_editor::edit_vmstate::{
    edit_vmstate_command, EditVmStateError, EditVmStateSubCommand,
};
use snapshot_editor::info::{info_vmstate_command, InfoVmStateError, InfoVmStateSubCommand};
use snapshot_editor::inspector::{InfoReport, SectionDetail, SectionSummary, VCPU_GROUP_TYPE_ID};
use snapshot_editor::patcher::{PatchError, SectionSelector};
use snapshot_editor::{main_exec, Command, CommandOutput, SnapEditorError};

fn blob(type_id: u32, version: u32, payload: &[u8]) -> Section {
    Section { type_id, version, payload: payload.to_vec() }
}

fn vmstate_bytes(sections: Vec<Section>) -> Vec<u8> {
    VmStateContainer {
        header: Header { format_version: FormatVersion::V1, total_length: 0, checksum: 0 },
        sections,
    }
    .serialize()
    .unwrap()
}

fn sample_sections() -> Vec<Section> {
    vec![
        blob(1, 1, b"X"),
        blob(VCPU_GROUP_TYPE_ID, 1, &[2, 0, 0, 0, 5, 6]),
        blob(2, 1, b"YY"),
        blob(2, 2, b"ZZZ"),
    ]
}

fn small_diff() -> Vec<u8> {
    let mut diff = Vec::new();
    diff.extend_from_slice(&2u64.to_le_bytes());
    diff.extend_from_slice(&4u64.to_le_bytes());
    diff.extend_from_slice(&2u64.to_le_bytes());
    diff.push(0b10);
    diff.extend_from_slice(&[7, 8]);
    diff
}

#[test]
fn edit_memory_command_rebases() {
    let command =
        EditMemorySubCommand::Rebase { base: vec![1, 2, 3, 4], diff: small_diff(), page_size: 2 };
    assert_eq!(edit_memory_command(command), Ok(vec![1, 2, 7, 8]));
}

#[test]
fn edit_memory_command_reports_errors() {
    let command =
        EditMemorySubCommand::Rebase { base: vec![1, 2, 3, 4], diff: small_diff(), page_size: 4 };
    assert_eq!(edit_memory_command(command), Err(EditMemoryError::SizeMismatch));
    let command =
        EditMemorySubCommand::Rebase { base: vec![1, 2, 3], diff: small_diff(), page_size: 2 };
    assert_eq!(edit_memory_command(command), Err(EditMemoryError::FormatError));
}

#[test]
fn edit_vmstate_remove_writes_remaining_sections() {
    let command = EditVmStateSubCommand::Remove {
        vmstate: vmstate_bytes(sample_sections()),
        selector: SectionSelector { type_id: 1, index: None },
    };
    let mut expected = sample_sections();
    expected.remove(0);
    assert_eq!(edit_vmstate_command(command), Ok(vmstate_bytes(expected)));
}

#[test]
fn edit_vmstate_replace_writes_new_payload() {
    let command = EditVmStateSubCommand::Replace {
        vmstate: vmstate_bytes(sample_sections()),
        selector: SectionSelector { type_id: 2, index: Some(1) },
        payload: b"replacement".to_vec(),
    };
    let mut expected = sample_sections();
    expected[3] = blob(2, 2, b"replacement");
    assert_eq!(edit_vmstate_command(command), Ok(vmstate_bytes(expected)));
}

#[test]
fn edit_vmstate_reports_each_error() {
    let vmstate = vmstate_bytes(sample_sections());
    let ambiguous = EditVmStateSubCommand::Remove {
        vmstate: vmstate.clone(),
        selector: SectionSelector { type_id: 2, index: None },
    };
    assert_eq!(
        edit_vmstate_command(ambiguous),
        Err(EditVmStateError::Patch(PatchError::AmbiguousSelector))
    );
    let missing = EditVmStateSubCommand::Replace {
        vmstate: vmstate.clone(),
        selector: SectionSelector { type_id: 99, index: None },
        payload: vec![],
    };
    assert_eq!(
        edit_vmstate_command(missing),
        Err(EditVmStateError::Patch(PatchError::SectionNotFound))
    );
    let mut corrupt = vmstate.clone();
    let last = corrupt.len() - 1;
    corrupt[last] ^= 0x40;
    let broken = EditVmStateSubCommand::Remove {
        vmstate: corrupt,
        selector: SectionSelector { type_id: 1, index: None },
    };
    assert_eq!(
        edit_vmstate_command(broken),
        Err(EditVmStateError::Container(VmStateError::CorruptContainer))
    );
    let mut future = vmstate;
    future[8] = 3;
    let unsupported = EditVmStateSubCommand::Remove {
        vmstate: future,
        selector: SectionSelector { type_id: 1, index: None },
    };
    assert_eq!(
        edit_vmstate_command(unsupported),
        Err(EditVmStateError::Container(VmStateError::UnsupportedVersion(3)))
    );
}

#[test]
fn info_command_reports_sections() {
    let command = InfoVmStateSubCommand::Report { vmstate: vmstate_bytes(sample_sections()) };
    let report = info_vmstate_command(command).unwrap();
    assert_eq!(report.format_version, 1);
    assert_eq!(report.section_summaries.len(), 4);
    assert_eq!(
        report.section_summaries[1],
        SectionSummary {
            type_id: VCPU_GROUP_TYPE_ID,
            version: 1,
            byte_length: 6,
            detail: SectionDetail::VcpuGroup { vcpu_count: 2 },
        }
    );
    assert_eq!(
        report.section_summaries[3],
        SectionSummary { type_id: 2, version: 2, byte_length: 3, detail: SectionDetail::Opaque }
    );
}

#[test]
fn info_command_rejects_corrupt_input() {
    let command = InfoVmStateSubCommand::Report { vmstate: b"not a container".to_vec() };
    assert_eq!(
        info_vmstate_command(command),
        Err(InfoVmStateError::Container(VmStateError::CorruptContainer))
    );
}

#[test]
fn remove_then_info_shows_section_absent() {
    let vmstate = vmstate_bytes(sample_sections());
    let before =
        info_vmstate_command(InfoVmStateSubCommand::Report { vmstate: vmstate.clone() }).unwrap();
    let edited = edit_vmstate_command(EditVmStateSubCommand::Remove {
        vmstate,
        selector: SectionSelector { type_id: 2, index: Some(0) },
    })
    .unwrap();
    let after = info_vmstate_command(InfoVmStateSubCommand::Report { vmstate: edited }).unwrap();
    let mut expected = before.section_summaries.clone();
    expected.remove(2);
    assert_eq!(after, InfoReport { format_version: 1, section_summaries: expected });
}

#[test]
fn main_exec_dispatches_each_group() {
    let memory = Command::EditMemory(EditMemorySubCommand::Rebase {
        base: vec![1, 2, 3, 4],
        diff: small_diff(),
        page_size: 2,
    });
    assert_eq!(main_exec(memory), Ok(CommandOutput::Memory(vec![1, 2, 7, 8])));

    let edit = Command::EditVmstate(EditVmStateSubCommand::Remove {
        vmstate: vmstate_bytes(vec![blob(1, 1, b"X"), blob(2, 1, b"YY")]),
        selector: SectionSelector { type_id: 1, index: None },
    });
    assert_eq!(
        main_exec(edit),
        Ok(CommandOutput::VmState(vmstate_bytes(vec![blob(2, 1, b"YY")])))
    );

    let info = Command::InfoVmstate(InfoVmStateSubCommand::Report {
        vmstate: vmstate_bytes(vec![blob(2, 1, b"YY")]),
    });
    assert_eq!(
        main_exec(info),
        Ok(CommandOutput::Info(InfoReport {
            format_version: 1,
            section_summaries: vec![SectionSummary {
                type_id: 2,
                version: 1,
                byte_length: 2,
                detail: SectionDetail::Opaque,
            }],
        }))
    );
}

#[test]
fn main_exec_wraps_errors_by_group() {
    let memory = Command::EditMemory(EditMemorySubCommand::Rebase {
        base: vec![1, 2, 3],
        diff: small_diff(),
        page_size: 2,
    });
    assert_eq!(main_exec(memory), Err(SnapEditorError::EditMemory(EditMemoryError::FormatError)));

    let edit = Command::EditVmstate(EditVmStateSubCommand::Remove {
        vmstate: vmstate_bytes(vec![]),
        selector: SectionSelector { type_id: 1, index: None },
    });
    assert_eq!(
        main_exec(edit),
        Err(SnapEditorError::EditVmState(EditVmStateError::Patch(PatchError::SectionNotFound)))
    );

    let info = Command::InfoVmstate(InfoVmStateSubCommand::Report { vmstate: vec![] });
    assert_eq!(
        main_exec(info),
        Err(SnapEditorError::InfoVmState(InfoVmStateError::Container(
            VmStateError::CorruptContainer
        )))
    );
}
