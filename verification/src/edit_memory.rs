//! The memory-editing command: rebasing a diff snapshot onto its base.

use crate::rebase::{rebase, spec_rebase};
use vstd::prelude::*;

verus! {

/// Why a memory image could not be rebased.
#[derive(Clone, Copy, Debug, PartialEq, Eq, Structural)]
pub enum EditMemoryError {
    /// The base and the diff disagree on the page size, or the diff covers
    /// more pages than the base has.
    SizeMismatch,
    /// A bitmap or a region has dimensions that do not fit together.
    FormatError,
}

/// The memory-editing operations, each with the contents of the files it
/// works on.
#[derive(Clone, Debug, PartialEq, Eq)]
pub enum EditMemorySubCommand {
    /// Lay the diff file `diff` over the flat image `base`, whose pages are
    /// `page_size` bytes long.
    Rebase { base: Vec<u8>, diff: Vec<u8>, page_size: u64 },
}

/// The image that `command` produces, or the reason it fails.
pub open spec fn spec_edit_memory(command: EditMemorySubCommand) -> Result<
    Seq<u8>,
    EditMemoryError,
> {
    match command {
        EditMemorySubCommand::Rebase { base, diff, page_size } => spec_rebase(
            base@,
            diff@,
            page_size,
        ),
    }
}

/// Runs a memory-editing command and returns the bytes of the new image.
pub fn edit_memory_command(command: EditMemorySubCommand) -> (r: Result<Vec<u8>, EditMemoryError>)
    ensures
        match r {
            Ok(image) => spec_edit_memory(command) == Ok::<Seq<u8>, EditMemoryError>(image@),
            Err(e) => spec_edit_memory(command) == Err::<Seq<u8>, EditMemoryError>(e),
        },
{
    match command {
        EditMemorySubCommand::Rebase { base, diff, page_size } => rebase(
            base.as_slice(),
            diff.as_slice(),
            page_size,
        ),
    }
}

} // verus!
