//! Editing and inspection of virtual-machine snapshot artifacts: rebasing a
//! diff memory image onto its base, removing or replacing sections of a
//! vmstate container, and reporting on the contents of one.
//!
//! Everything here works on file contents held in memory or, for memory
//! images, on a plan that names the byte ranges to copy. Opening, reading
//! and writing files is left to the caller.

use vstd::prelude::*;

pub mod bitmap;
pub mod checksum;
pub mod codec;
pub mod container;
pub mod edit_memory;
pub mod edit_vmstate;
pub mod info;
pub mod inspector;
pub mod patcher;
pub mod rebase;

use crate::edit_memory::{
    edit_memory_command, spec_edit_memory, EditMemoryError, EditMemorySubCommand,
};
use crate::edit_vmstate::{
    edit_vmstate_command, spec_edit_vmstate, EditVmStateError, EditVmStateSubCommand,
};
use crate::info::{
    info_vmstate_command, spec_info_vmstate, InfoVmStateError, InfoVmStateSubCommand,
};
use crate::inspector::{InfoReport, ReportView};

verus! {

/// Why a command failed, by the group the command belongs to.
#[derive(Clone, Copy, Debug, PartialEq, Eq, Structural)]
pub enum SnapEditorError {
    /// Error during editing memory file.
    EditMemory(EditMemoryError),
    /// Error during editing vmstate file.
    EditVmState(EditVmStateError),
    /// Error during getting info from a vmstate file.
    InfoVmState(InfoVmStateError),
}

/// A command with the contents of the files it works on.
#[derive(Clone, Debug, PartialEq, Eq)]
pub enum Command {
    EditMemory(EditMemorySubCommand),
    EditVmstate(EditVmStateSubCommand),
    InfoVmstate(InfoVmStateSubCommand),
}

/// What a command hands back for the caller to write out.
#[derive(Clone, Debug, PartialEq, Eq)]
pub enum CommandOutput {
    /// The bytes of the rebased memory image.
    Memory(Vec<u8>),
    /// The bytes of the edited vmstate file.
    VmState(Vec<u8>),
    /// The report on a vmstate file.
    Info(InfoReport),
}

/// Mathematical model of a [`CommandOutput`].
pub enum OutputView {
    Memory(Seq<u8>),
    VmState(Seq<u8>),
    Info(ReportView),
}

impl View for CommandOutput {
    type V = OutputView;

    open spec fn view(&self) -> OutputView {
        match self {
            CommandOutput::Memory(bytes) => OutputView::Memory(bytes@),
            CommandOutput::VmState(bytes) => OutputView::VmState(bytes@),
            CommandOutput::Info(report) => OutputView::Info(report@),
        }
    }
}

/// What `command` hands back, or the reason it fails: the result of the
/// operation it names, or that operation's error under the variant of its
/// group.
pub open spec fn spec_main_exec(command: Command) -> Result<OutputView, SnapEditorError> {
    match command {
        Command::EditMemory(command) => match spec_edit_memory(command) {
            Ok(image) => Ok(OutputView::Memory(image)),
            Err(e) => Err(SnapEditorError::EditMemory(e)),
        },
        Command::EditVmstate(command) => match spec_edit_vmstate(command) {
            Ok(bytes) => Ok(OutputView::VmState(bytes)),
            Err(e) => Err(SnapEditorError::EditVmState(e)),
        },
        Command::InfoVmstate(command) => match spec_info_vmstate(command) {
            Ok(report) => Ok(OutputView::Info(report)),
            Err(e) => Err(SnapEditorError::InfoVmState(e)),
        },
    }
}

/// Runs `command` and hands back what it produced.
pub fn main_exec(command: Command) -> (r: Result<CommandOutput, SnapEditorError>)
    ensures
        match r {
            Ok(output) => spec_main_exec(command) == Ok::<OutputView, SnapEditorError>(output@),
            Err(e) => spec_main_exec(command) == Err::<OutputView, SnapEditorError>(e),
        },
{
    match command {
        Command::EditMemory(command) => match edit_memory_command(command) {
            Ok(image) => Ok(CommandOutput::Memory(image)),
            Err(e) => Err(SnapEditorError::EditMemory(e)),
        },
        Command::EditVmstate(command) => match edit_vmstate_command(command) {
            Ok(bytes) => Ok(CommandOutput::VmState(bytes)),
            Err(e) => Err(SnapEditorError::EditVmState(e)),
        },
        Command::InfoVmstate(command) => match info_vmstate_command(command) {
            Ok(report) => Ok(CommandOutput::Info(report)),
            Err(e) => Err(SnapEditorError::InfoVmState(e)),
        },
    }
}

} // verus!
