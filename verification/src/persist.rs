//! Storing a snapshot in a file by atomic replacement: the snapshot is
//! written to a temporary file, which is then renamed over the target.
//!
//! The library decides what is to be done next; the caller does it to the
//! files and reports how it went.

use crate::error::{IoFailure, StorageError};
use vstd::prelude::*;

verus! {

/// What the caller is to do next when storing a snapshot. A save starts at
/// `WriteTemp`.
#[derive(Debug, PartialEq, Eq)]
pub enum SaveStep {
    /// Write the whole snapshot to the temporary file.
    WriteTemp,
    /// Rename the temporary file over the target.
    Replace,
    /// Remove the temporary file: the save has failed for the reason held.
    Discard(IoFailure),
    /// Nothing more: the save has ended as held.
    Done(Result<(), StorageError>),
}

/// The step that follows `step` once it was carried out with `outcome`.
///
/// A failure to write or to rename leads to the removal of the temporary
/// file and then ends the save with that failure. Whether the removal
/// itself succeeds is not looked at.
pub open spec fn next_step(step: SaveStep, outcome: Result<(), IoFailure>) -> SaveStep {
    match step {
        SaveStep::WriteTemp => match outcome {
            Ok(_) => SaveStep::Replace,
            Err(failure) => SaveStep::Discard(failure),
        },
        SaveStep::Replace => match outcome {
            Ok(_) => SaveStep::Done(Ok(())),
            Err(failure) => SaveStep::Discard(failure),
        },
        SaveStep::Discard(failure) => SaveStep::Done(Err(StorageError::Io(failure))),
        SaveStep::Done(result) => SaveStep::Done(result),
    }
}

impl SaveStep {
    /// The step that follows `self` once it was carried out with `outcome`.
    pub fn advance(self, outcome: Result<(), IoFailure>) -> (next: SaveStep)
        ensures
            next == next_step(self, outcome),
    {
        match self {
            SaveStep::WriteTemp => match outcome {
                Ok(_) => SaveStep::Replace,
                Err(failure) => SaveStep::Discard(failure),
            },
            SaveStep::Replace => match outcome {
                Ok(_) => SaveStep::Done(Ok(())),
                Err(failure) => SaveStep::Discard(failure),
            },
            SaveStep::Discard(failure) => SaveStep::Done(Err(StorageError::Io(failure))),
            SaveStep::Done(result) => SaveStep::Done(result),
        }
    }
}

/// The contents of the two files that a save touches. A file that does not
/// exist has none.
pub struct Files {
    /// The file that holds the stored set.
    pub target: Option<Seq<u8>>,
    /// The temporary file beside it.
    pub temp: Option<Seq<u8>>,
}

/// What carrying out `step` may do to the files, going by what a file system
/// promises: writing or removing the temporary file leaves the target alone,
/// a write that succeeded has written all of `snapshot`, and a rename gives
/// the target the temporary file's contents or, failing, changes nothing.
pub open spec fn carried_out(
    step: SaveStep,
    succeeded: bool,
    snapshot: Seq<u8>,
    before: Files,
    after: Files,
) -> bool {
    match step {
        SaveStep::WriteTemp => {
            &&& after.target == before.target
            &&& succeeded ==> after.temp == Some(snapshot)
        },
        SaveStep::Replace => if succeeded {
            after.target == before.temp && after.temp is None
        } else {
            after == before
        },
        SaveStep::Discard(_) => after.target == before.target,
        SaveStep::Done(_) => after == before,
    }
}

/// What holds of the files when `step` is the next to be carried out, in a
/// save of `snapshot` over a target that held `previous`: the target holds
/// `previous` still, whole, unless the save has ended well, and then it
/// holds all of `snapshot`.
pub open spec fn target_whole(
    step: SaveStep,
    files: Files,
    previous: Option<Seq<u8>>,
    snapshot: Seq<u8>,
) -> bool {
    match step {
        SaveStep::WriteTemp => files.target == previous,
        SaveStep::Replace => files.target == previous && files.temp == Some(snapshot),
        SaveStep::Discard(_) => files.target == previous,
        SaveStep::Done(Ok(_)) => files.target == Some(snapshot),
        SaveStep::Done(Err(_)) => files.target == previous,
    }
}

/// A save never leaves the target half written. Before the rename has
/// succeeded the target holds what it held before the save, so a save that
/// is cut short between the writing and the renaming, or that fails, has
/// changed nothing; after it, the target holds the whole snapshot.
pub proof fn save_keeps_target_whole(
    step: SaveStep,
    outcome: Result<(), IoFailure>,
    snapshot: Seq<u8>,
    previous: Option<Seq<u8>>,
    before: Files,
    after: Files,
)
    requires
        target_whole(step, before, previous, snapshot),
        carried_out(step, outcome is Ok, snapshot, before, after),
    ensures
        target_whole(next_step(step, outcome), after, previous, snapshot),
        after.target == previous || after.target == Some(snapshot),
{
}

} // verus!
