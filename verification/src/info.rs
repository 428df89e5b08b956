//! The vmstate-inspection command: parse a container and report on it.

use crate::container::{spec_parse, ContainerView, VmStateContainer, VmStateError};
use crate::edit_vmstate::{
    lemma_edit_output_parses, spec_edit_vmstate, spec_input, EditVmStateSubCommand,
};
use crate::inspector::{inspect, lemma_inspect_after_remove, spec_inspect, InfoReport, ReportView};
use crate::patcher::{
    lemma_count_after_remove, lemma_select_picks_match, spec_count_matching, spec_select,
    SectionSelector,
};
use vstd::prelude::*;

verus! {

/// Why no report could be made on a vmstate file.
#[derive(Clone, Copy, Debug, PartialEq, Eq, Structural)]
pub enum InfoVmStateError {
    /// The input is not a container this build can read.
    Container(VmStateError),
}

/// The vmstate-inspection operations, each with the contents of the file it
/// works on.
#[derive(Clone, Debug, PartialEq, Eq)]
pub enum InfoVmStateSubCommand {
    /// Report the format version and summarize every section.
    Report { vmstate: Vec<u8> },
}

/// The report on the file contents `vmstate`, or the reason there is none.
pub open spec fn spec_report(vmstate: Seq<u8>) -> Result<ReportView, InfoVmStateError> {
    match spec_parse(vmstate) {
        Ok(container) => Ok(spec_inspect(container)),
        Err(e) => Err(InfoVmStateError::Container(e)),
    }
}

/// The report that `command` produces, or the reason it fails.
pub open spec fn spec_info_vmstate(command: InfoVmStateSubCommand) -> Result<
    ReportView,
    InfoVmStateError,
> {
    match command {
        InfoVmStateSubCommand::Report { vmstate } => spec_report(vmstate@),
    }
}

/// Runs a vmstate-inspection command. The input is not changed.
pub fn info_vmstate_command(command: InfoVmStateSubCommand) -> (r: Result<
    InfoReport,
    InfoVmStateError,
>)
    ensures
        match r {
            Ok(report) => spec_info_vmstate(command) == Ok::<ReportView, InfoVmStateError>(
                report@,
            ),
            Err(e) => spec_info_vmstate(command) == Err::<ReportView, InfoVmStateError>(e),
        },
{
    match command {
        InfoVmStateSubCommand::Report { vmstate } => {
            match VmStateContainer::parse(vmstate.as_slice()) {
                Ok(container) => Ok(inspect(&container)),
                Err(e) => Err(InfoVmStateError::Container(e)),
            }
        },
    }
}

/// Removing a section and then reporting on the result shows the report of
/// the input without the line of the section that was picked: the format
/// version and every other line are as before, in the same order. One
/// section fewer has the selector's type.
pub proof fn lemma_report_after_remove(vmstate: Vec<u8>, selector: SectionSelector)
    requires
        spec_edit_vmstate(EditVmStateSubCommand::Remove { vmstate, selector }) is Ok,
    ensures
        ({
            let input = spec_parse(vmstate@)->Ok_0;
            let p = spec_select(input.sections, selector)->Ok_0;
            let output = spec_edit_vmstate(EditVmStateSubCommand::Remove { vmstate, selector })->Ok_0;
            let before = spec_report(vmstate@)->Ok_0;
            let after = spec_report(output)->Ok_0;
            &&& spec_report(vmstate@) is Ok
            &&& spec_report(output) is Ok
            &&& 0 <= p < before.section_summaries.len()
            &&& before.section_summaries[p].type_id == selector.type_id
            &&& after.format_version == before.format_version
            &&& after.section_summaries == before.section_summaries.remove(p)
            &&& spec_count_matching((spec_parse(output)->Ok_0).sections, selector.type_id) + 1
                == spec_count_matching(input.sections, selector.type_id)
        }),
{
    let command = EditVmStateSubCommand::Remove { vmstate, selector };
    let input = spec_parse(vmstate@)->Ok_0;
    let p = spec_select(input.sections, selector)->Ok_0;
    lemma_edit_output_parses(command);
    lemma_select_picks_match(input.sections, selector);
    lemma_inspect_after_remove(input, p);
    lemma_count_after_remove(input.sections, p, selector.type_id);
}

} // verus!
