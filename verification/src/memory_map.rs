//! A process's memory map as the tracker takes it: the lines of the map,
//! and for each file that the tracker asked for, what was found in it.

use vstd::prelude::*;
use crate::process::{BuildId, ExecutableId};

verus! {

/// The bit that stands for the right to execute in the permissions of a
/// memory map entry.
pub const PERMISSION_EXECUTE: u8 = 4;

/// The text that the kernel appends to the path of a file that was removed
/// while it was mapped.
pub const DELETED_MARKER: &'static str = "(deleted)";

/// What a line of the memory map names as the backing of its range.
#[derive(Debug)]
pub enum MapPath {
    /// The file that backs the mapping.
    Path(String),
    Heap,
    Stack,
    TStack(u32),
    Vdso,
    Vvar,
    Vsyscall,
    Rollup,
    /// Memory that no file backs.
    Anonymous,
    Vsys(i32),
    Other(String),
}

/// Why an object file could not be used.
#[derive(Debug, Clone, Copy, PartialEq, Eq, Structural)]
pub enum ObjectFileError {
    NotElf,
    NoBuildId,
    /// The file belongs to a runtime that cannot be unwound yet.
    UnsupportedRuntime,
    Io,
}

/// What was read from an object file.
#[derive(Debug)]
pub struct ObjectFile {
    pub executable_id: ExecutableId,
    pub build_id: BuildId,
    /// The file offset of the first loadable segment that can be executed.
    pub load_offset: u64,
    /// The virtual address of that segment.
    pub load_vaddr: u64,
    /// The file is position independent.
    pub is_dyn: bool,
}

/// One line of a process's memory map.
#[derive(Debug)]
pub struct MemoryMap {
    /// The first address of the range, and the first address after it.
    pub address: (u64, u64),
    pub perms: u8,
    pub offset: u64,
    pub pathname: MapPath,
    /// What was found in the file, where `wants_object_file` asked for it
    /// to be opened.
    pub object: Option<Result<ObjectFile, ObjectFileError>>,
}

/// The text `needle` stands somewhere in `text`.
pub open spec fn occurs_in(needle: Seq<char>, text: Seq<char>) -> bool {
    exists|i: int|
        0 <= i && i + needle.len() <= text.len() && #[trigger] text.subrange(
            i,
            i + needle.len(),
        ) == needle
}

/// `str::contains`, with a string as the pattern: whether the pattern
/// matches a part of the text, that is, stands somewhere in it.
#[verifier::external_body]
fn contains_text(text: &str, needle: &str) -> (found: bool)
    ensures
        found == occurs_in(needle@, text@),
{
    text.contains(needle)
}

impl MemoryMap {
    /// The range can be executed.
    pub open spec fn executable(self) -> bool {
        self.perms & PERMISSION_EXECUTE != 0
    }

    /// The line names the file `path`.
    pub open spec fn names(self, path: Seq<char>) -> bool {
        match self.pathname {
            MapPath::Path(p) => p@ == path,
            _ => false,
        }
    }

    /// The range can be executed and a file that still has its name backs
    /// it.
    pub open spec fn wants_file(self) -> bool {
        match self.pathname {
            MapPath::Path(p) => self.executable() && !occurs_in(DELETED_MARKER@, p@),
            _ => false,
        }
    }

    /// The file was opened and belongs to a runtime that cannot be unwound.
    pub open spec fn runs_unsupported(self) -> bool {
        self.wants_file() && self.object == Some(
            Err::<ObjectFile, ObjectFileError>(ObjectFileError::UnsupportedRuntime),
        )
    }

    pub fn is_executable(&self) -> (b: bool)
        ensures
            b == self.executable(),
    {
        self.perms & PERMISSION_EXECUTE != 0
    }

    /// Says whether the tracker needs the file of this line opened.
    pub fn wants_object_file(&self) -> (b: bool)
        ensures
            b == self.wants_file(),
    {
        match &self.pathname {
            MapPath::Path(p) => self.is_executable() && !contains_text(
                p.as_str(),
                DELETED_MARKER,
            ),
            _ => false,
        }
    }
}

/// The address at which the file `path` is loaded: where the first line,
/// from `from` on, that names the file begins.
pub open spec fn load_base_from(maps: Seq<MemoryMap>, path: Seq<char>, from: int) -> Option<u64>
    decreases maps.len() - from,
{
    if from < 0 || from >= maps.len() {
        None
    } else if maps[from].names(path) {
        Some(maps[from].address.0)
    } else {
        load_base_from(maps, path, from + 1)
    }
}

/// The address at which the file `path` is loaded, or `fallback` where no
/// line names the file.
pub open spec fn load_base(maps: Seq<MemoryMap>, path: Seq<char>, fallback: u64) -> u64 {
    match load_base_from(maps, path, 0) {
        Some(base) => base,
        None => fallback,
    }
}

/// The address at which a file is loaded: where the first line that names
/// it begins, whether or not that line can be executed.
pub fn load_address(maps: &Vec<MemoryMap>, path: &String, fallback: u64) -> (base: u64)
    ensures
        base == load_base(maps@, path@, fallback),
{
    let n: usize = maps.len();
    let mut i: usize = 0;
    while i < n
        invariant
            i <= n,
            n == maps.len(),
            load_base_from(maps@, path@, 0) == load_base_from(maps@, path@, i as int),
        decreases n - i,
    {
        let found = match &maps[i].pathname {
            MapPath::Path(p) => *p == *path,
            _ => false,
        };
        if found {
            return maps[i].address.0;
        }
        i += 1;
    }
    fallback
}

} // verus!
