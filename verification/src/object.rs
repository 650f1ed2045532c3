//! What is made of an object file once its headers and notes were read:
//! whether it can be used, under which build id, and where it is loaded.

use vstd::prelude::*;
use crate::memory_map::{ObjectFile, ObjectFileError};
use crate::process::{BuildId, ExecutableId};

verus! {

/// A segment of an object file that is loaded into memory.
#[derive(Clone, Copy, Debug, PartialEq, Eq, Structural)]
pub struct LoadSegment {
    /// The segment can be executed.
    pub executable: bool,
    /// Where the segment lies in the file.
    pub offset: u64,
    /// The virtual address at which the segment asks to be loaded.
    pub vaddr: u64,
}

/// What was read from an object file.
#[derive(Debug)]
pub struct ObjectFacts {
    /// The identifier derived from the content of the file.
    pub executable_id: ExecutableId,
    /// The build id of the GNU note, where there is one.
    pub gnu_build_id: Option<BuildId>,
    /// The build id of the Go note, where there is one.
    pub go_build_id: Option<BuildId>,
    /// The file holds the note with which Go describes a build.
    pub go_build_info: bool,
    /// The file is position independent.
    pub is_dyn: bool,
    /// The segments that are loaded, in the order of the program header.
    pub load_segments: Vec<LoadSegment>,
}

/// The first of the segments, from `from` on, that can be executed.
pub open spec fn first_executable(segments: Seq<LoadSegment>, from: int) -> Option<LoadSegment>
    decreases segments.len() - from,
{
    if from < 0 || from >= segments.len() {
        None
    } else if segments[from].executable {
        Some(segments[from])
    } else {
        first_executable(segments, from + 1)
    }
}

/// The build id of a file: that of the GNU note, and that of the Go note
/// only where there is no GNU note.
pub open spec fn build_id_of(facts: ObjectFacts) -> Option<BuildId> {
    match facts.gnu_build_id {
        Some(id) => Some(id),
        None => facts.go_build_id,
    }
}

/// What is made of an object file.
///
/// A file of Go is refused as belonging to a runtime that cannot be
/// unwound yet; a file without a build id has none; a file without a
/// segment that can be executed is no executable. Any other file is
/// entered with its build id and with the place of the first segment
/// that can be executed.
pub open spec fn inspection(facts: ObjectFacts) -> Result<ObjectFile, ObjectFileError> {
    if facts.go_build_info {
        Err(ObjectFileError::UnsupportedRuntime)
    } else {
        match build_id_of(facts) {
            None => Err(ObjectFileError::NoBuildId),
            Some(build_id) => match first_executable(facts.load_segments@, 0) {
                None => Err(ObjectFileError::NotElf),
                Some(segment) => Ok(
                    ObjectFile {
                        executable_id: facts.executable_id,
                        build_id,
                        load_offset: segment.offset,
                        load_vaddr: segment.vaddr,
                        is_dyn: facts.is_dyn,
                    },
                ),
            },
        }
    }
}

/// The first of the segments that can be executed.
fn find_executable(segments: &Vec<LoadSegment>) -> (found: Option<LoadSegment>)
    ensures
        found == first_executable(segments@, 0),
{
    let n: usize = segments.len();
    let mut i: usize = 0;
    while i < n
        invariant
            i <= n,
            n == segments.len(),
            first_executable(segments@, 0) == first_executable(segments@, i as int),
        decreases n - i,
    {
        if segments[i].executable {
            return Some(segments[i]);
        }
        i += 1;
    }
    None
}

/// What is made of an object file from what was read of it.
pub fn inspect(facts: ObjectFacts) -> (object: Result<ObjectFile, ObjectFileError>)
    ensures
        object == inspection(facts),
{
    if facts.go_build_info {
        return Err(ObjectFileError::UnsupportedRuntime);
    }
    let segment = find_executable(&facts.load_segments);
    let build_id = match facts.gnu_build_id {
        Some(id) => id,
        None => match facts.go_build_id {
            Some(id) => id,
            None => {
                return Err(ObjectFileError::NoBuildId);
            },
        },
    };
    match segment {
        None => Err(ObjectFileError::NotElf),
        Some(segment) => Ok(
            ObjectFile {
                executable_id: facts.executable_id,
                build_id,
                load_offset: segment.offset,
                load_vaddr: segment.vaddr,
                is_dyn: facts.is_dyn,
            },
        ),
    }
}

} // verus!
