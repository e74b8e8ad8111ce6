//! Which directory entries the walk of the single-command variant queues.

use vstd::prelude::*;
use crate::media::discover::WalkStep;

verus! {

/// Decides what the walk does with an entry: directories are walked into,
/// regular files are queued whatever their extension, anything else is
/// passed over.
pub fn classify_entry(is_dir: bool, is_file: bool) -> (step: WalkStep)
    ensures
        step == (if is_dir {
            WalkStep::Descend
        } else if is_file {
            WalkStep::Enqueue
        } else {
            WalkStep::Ignore
        }),
{
    if is_dir {
        WalkStep::Descend
    } else if is_file {
        WalkStep::Enqueue
    } else {
        WalkStep::Ignore
    }
}

} // verus!
