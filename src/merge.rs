//! The outcome of a three-way merge of an overlay with its chart's old and
//! new defaults, from the merge tool's exit status.
use vstd::prelude::*;
use crate::error::Error;

verus! {

/// How a merge that ran to completion went.
#[derive(Clone, Copy, Debug, PartialEq, Eq, Structural)]
pub enum MergeOutcome {
    /// Every change was taken from one side or agreed on by both.
    Clean,
    /// The overlay now holds conflict markers for a person to resolve.
    Conflicted,
}

/// Conflict counts above this are reported as this.
pub const MAX_CONFLICTS: i32 = 127;

/// What the merge tool's exit status means: none when the tool could not be
/// started, zero for a clean merge, a conflict count up to [`MAX_CONFLICTS`],
/// anything else for a failure to read or write the files.
pub open spec fn outcome_of(status: Option<i32>) -> Result<MergeOutcome, Error> {
    match status {
        None => Err(Error::MergeToolUnavailable),
        Some(code) => if code == 0 {
            Ok(MergeOutcome::Clean)
        } else if 0 < code <= MAX_CONFLICTS {
            Ok(MergeOutcome::Conflicted)
        } else {
            Err(Error::MergeIOError)
        },
    }
}

/// Reads the merge tool's exit status.
pub fn merge_outcome(status: Option<i32>) -> (r: Result<MergeOutcome, Error>)
    ensures
        r == outcome_of(status),
{
    match status {
        None => Err(Error::MergeToolUnavailable),
        Some(code) => {
            if code == 0 {
                Ok(MergeOutcome::Clean)
            } else if 0 < code && code <= MAX_CONFLICTS {
                Ok(MergeOutcome::Conflicted)
            } else {
                Err(Error::MergeIOError)
            }
        },
    }
}

} // verus!
