//! The vmstate-editing command: parse a container, apply one structural
//! edit, and serialize the result.

use crate::container::{
    lemma_parse_of_serialize, lemma_serialize_of_parse, spec_fresh_header, spec_parse,
    spec_serialize, spec_serialized_len, ContainerView, FormatVersion, SectionView,
    VmStateContainer, VmStateError,
};
use crate::patcher::{
    remove, replace, spec_select, spec_with_payload, PatchError, SectionSelector,
};
use vstd::prelude::*;

verus! {

/// Why a vmstate file could not be edited.
#[derive(Clone, Copy, Debug, PartialEq, Eq, Structural)]
pub enum EditVmStateError {
    /// The input is not a container this build can read.
    Container(VmStateError),
    /// The selector did not pick a section.
    Patch(PatchError),
    /// The edited container is longer than this machine can address.
    OutputTooLarge,
}

/// The vmstate-editing operations, each with the contents of the file it
/// works on.
#[derive(Clone, Debug, PartialEq, Eq)]
pub enum EditVmStateSubCommand {
    /// Delete the section that `selector` picks.
    Remove { vmstate: Vec<u8>, selector: SectionSelector },
    /// Put `payload` in place of the payload of the section that
    /// `selector` picks.
    Replace { vmstate: Vec<u8>, selector: SectionSelector, payload: Vec<u8> },
}

/// The serialization of `sections` under `version`, if this machine can
/// address that many bytes.
pub open spec fn spec_emit(version: FormatVersion, sections: Seq<SectionView>) -> Result<
    Seq<u8>,
    EditVmStateError,
> {
    if spec_serialized_len(sections) <= usize::MAX {
        Ok(spec_serialize(version, sections))
    } else {
        Err(EditVmStateError::OutputTooLarge)
    }
}

/// The sections of `container` after `command` was applied to them, or the
/// reason the edit fails.
pub open spec fn spec_edited_sections(
    container: ContainerView,
    command: EditVmStateSubCommand,
) -> Result<Seq<SectionView>, PatchError> {
    match command {
        EditVmStateSubCommand::Remove { vmstate, selector } => match spec_select(
            container.sections,
            selector,
        ) {
            Ok(p) => Ok(container.sections.remove(p)),
            Err(e) => Err(e),
        },
        EditVmStateSubCommand::Replace { vmstate, selector, payload } => match spec_select(
            container.sections,
            selector,
        ) {
            Ok(p) => Ok(
                container.sections.update(p, spec_with_payload(container.sections[p], payload@)),
            ),
            Err(e) => Err(e),
        },
    }
}

/// The file contents that `command` works on.
pub open spec fn spec_input(command: EditVmStateSubCommand) -> Seq<u8> {
    match command {
        EditVmStateSubCommand::Remove { vmstate, selector } => vmstate@,
        EditVmStateSubCommand::Replace { vmstate, selector, payload } => vmstate@,
    }
}

/// The file contents that `command` produces, or the reason it fails: the
/// first of a parse error, a selection error, and an output that is too
/// large.
pub open spec fn spec_edit_vmstate(command: EditVmStateSubCommand) -> Result<
    Seq<u8>,
    EditVmStateError,
> {
    match spec_parse(spec_input(command)) {
        Err(e) => Err(EditVmStateError::Container(e)),
        Ok(container) => match spec_edited_sections(container, command) {
            Err(e) => Err(EditVmStateError::Patch(e)),
            Ok(sections) => spec_emit(container.header.format_version, sections),
        },
    }
}

/// Serializes an edited container.
fn emit(container: &VmStateContainer) -> (r: Result<Vec<u8>, EditVmStateError>)
    ensures
        match r {
            Ok(out) => spec_emit(container.header.format_version, container@.sections) == Ok::<
                Seq<u8>,
                EditVmStateError,
            >(out@),
            Err(e) => spec_emit(container.header.format_version, container@.sections) == Err::<
                Seq<u8>,
                EditVmStateError,
            >(e),
        },
{
    match container.serialize() {
        Some(out) => Ok(out),
        None => Err(EditVmStateError::OutputTooLarge),
    }
}

/// Runs a vmstate-editing command and returns the bytes of the edited
/// file. The input is not changed; nothing is returned unless the whole
/// edit succeeded.
pub fn edit_vmstate_command(command: EditVmStateSubCommand) -> (r: Result<
    Vec<u8>,
    EditVmStateError,
>)
    ensures
        match r {
            Ok(out) => spec_edit_vmstate(command) == Ok::<Seq<u8>, EditVmStateError>(out@),
            Err(e) => spec_edit_vmstate(command) == Err::<Seq<u8>, EditVmStateError>(e),
        },
{
    match command {
        EditVmStateSubCommand::Remove { vmstate, selector } => {
            let mut container = match VmStateContainer::parse(vmstate.as_slice()) {
                Ok(container) => container,
                Err(e) => {
                    return Err(EditVmStateError::Container(e));
                },
            };
            match remove(&mut container, &selector) {
                Ok(()) => emit(&container),
                Err(e) => Err(EditVmStateError::Patch(e)),
            }
        },
        EditVmStateSubCommand::Replace { vmstate, selector, payload } => {
            let mut container = match VmStateContainer::parse(vmstate.as_slice()) {
                Ok(container) => container,
                Err(e) => {
                    return Err(EditVmStateError::Container(e));
                },
            };
            match replace(&mut container, &selector, payload) {
                Ok(()) => emit(&container),
                Err(e) => Err(EditVmStateError::Patch(e)),
            }
        },
    }
}

/// What an edit writes parses again, to the format version of the input
/// and to the input's sections with the one edit applied: every section
/// that the edit did not pick is still there, in the same order and with
/// the same type, version and payload, whatever its type is. The header of
/// the result carries the total length and checksum of the new contents.
pub proof fn lemma_edit_output_parses(command: EditVmStateSubCommand)
    requires
        spec_edit_vmstate(command) is Ok,
    ensures
        ({
            let input = spec_parse(spec_input(command))->Ok_0;
            let version = input.header.format_version;
            let sections = spec_edited_sections(input, command)->Ok_0;
            &&& spec_parse(spec_input(command)) is Ok
            &&& spec_edited_sections(input, command) is Ok
            &&& spec_parse(spec_edit_vmstate(command)->Ok_0) == Ok::<ContainerView, VmStateError>(
                ContainerView { header: spec_fresh_header(version, sections), sections },
            )
        }),
{
    let input = spec_parse(spec_input(command))->Ok_0;
    let sections = spec_edited_sections(input, command)->Ok_0;
    lemma_parse_of_serialize(input.header.format_version, sections);
}

/// Removing a section from a container that was just parsed never fails
/// for want of room: the result is shorter than the input.
pub proof fn lemma_remove_fits(vmstate: Vec<u8>, selector: SectionSelector)
    requires
        spec_parse(vmstate@) is Ok,
        spec_select((spec_parse(vmstate@)->Ok_0).sections, selector) is Ok,
    ensures
        spec_edit_vmstate(EditVmStateSubCommand::Remove { vmstate, selector }) is Ok,
{
    let input = spec_parse(vmstate@)->Ok_0;
    let p = spec_select(input.sections, selector)->Ok_0;
    lemma_serialize_of_parse(vmstate@);
    crate::patcher::lemma_select_picks_match(input.sections, selector);
    crate::container::lemma_sections_bytes_prefix(input.sections, p);
    crate::container::lemma_sections_bytes_prefix(input.sections, p + 1);
    let before = input.sections.take(p);
    let after = input.sections.skip(p + 1);
    assert(input.sections.remove(p) =~= before + after);
    crate::container::lemma_sections_bytes_concat(before, after);
    assert(input.sections.skip(p) =~= seq![input.sections[p]] + after);
    crate::container::lemma_sections_bytes_concat(seq![input.sections[p]], after);
    assert(vmstate@.len() == vmstate.len());
}

} // verus!
