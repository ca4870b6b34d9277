//! The stages of a restore that need no outside help, put together.
//!
//! Both commands run in a line: resolve the path, for a restore list the
//! archive, plan the run, run it. The first stage that fails ends the
//! command. Reading files and running the plan is left to the caller.

use crate::errors::{ArchiveReadError, Error};
use crate::inspector::{directory_tree, get_tar_top_level_list, listed_paths, volume_names};
use crate::planner::{plan_restore, restore_args, Invocation, RUNTIME};
use crate::resolver::ResolvedPath;
use crate::text::texts;
use vstd::prelude::*;

verus! {

/// Plans the restore of the volumes that an archive holds. `archive` is what
/// reading the source file gave: its bytes, or `None` if it could not be
/// read. The archive is listed, and every volume found in it is mounted to
/// be written to; the caller names no volume.
pub fn plan_restore_from_archive(archive: Option<&[u8]>, source: &ResolvedPath) -> (plan: Result<
    Invocation,
    Error,
>)
    ensures
        match archive {
            None => plan == Err::<Invocation, Error>(
                Error::ArchiveRead(ArchiveReadError::Unreadable),
            ),
            Some(bytes) => match plan {
                Ok(run) => {
                    &&& directory_tree(listed_paths(bytes@)) matches Ok(paths)
                    &&& run.program@ == RUNTIME@
                    &&& texts(run.args@) == restore_args(
                        volume_names(paths),
                        source.parent_dir@,
                        source.filename@,
                    )
                },
                Err(error) => {
                    &&& directory_tree(listed_paths(bytes@)) matches Err(cause)
                    &&& error == Error::ArchiveRead(cause)
                },
            },
        },
{
    match archive {
        None => Err(Error::ArchiveRead(ArchiveReadError::Unreadable)),
        Some(bytes) => match get_tar_top_level_list(bytes) {
            Ok(names) => Ok(plan_restore(&names, source)),
            Err(cause) => Err(Error::ArchiveRead(cause)),
        },
    }
}

} // verus!
