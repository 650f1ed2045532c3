//! What is known of a process: its executable mappings, and the object
//! files that back them.

use vstd::prelude::*;

verus! {

/// The identifier of an executable, derived from the content of its file.
pub type ExecutableId = u64;

/// The build id of an object file, as text.
pub type BuildId = String;

/// What the tracers report of a process.
#[derive(Debug, Clone, Copy, PartialEq, Eq, Structural)]
pub enum TracerEvent {
    ProcessExit(i32),
    Munmap(i32, u64),
}

/// What backs an executable mapping.
#[derive(Debug, Clone, Copy, PartialEq, Eq, Structural)]
pub enum MappingType {
    FileBacked,
    Anonymous,
    Vdso,
}

#[derive(Debug, Clone, Copy, PartialEq, Eq, Structural)]
pub enum ProcessStatus {
    Running,
    Exited,
}

/// One executable mapping of a process.
#[derive(Debug)]
pub struct ExecutableMapping {
    pub executable_id: ExecutableId,
    /// Without a build id the mapping is generated code, or the id could
    /// not be read.
    pub build_id: Option<BuildId>,
    pub kind: MappingType,
    pub start_addr: u64,
    pub end_addr: u64,
    pub offset: u64,
    /// What is subtracted from a sampled address to get the address that
    /// the unwind table of the executable speaks of: the address at which
    /// the file is loaded, and 0 for a main executable that is not
    /// position independent and for a mapping without a file.
    pub load_address: u64,
    /// The mapping is the first file-backed one of its process.
    pub main_exec: bool,
    pub unmapped: bool,
}

impl ExecutableMapping {
    /// The address lies in the mapping, its two ends included.
    pub open spec fn spans(self, addr: u64) -> bool {
        self.start_addr <= addr <= self.end_addr
    }

    /// The mapping is in use and backed by the object file `id`.
    pub open spec fn refers_to(self, id: ExecutableId) -> bool {
        self.kind == MappingType::FileBacked && !self.unmapped && self.executable_id == id
    }

    /// The mapping once it is gone from the process.
    pub open spec fn deleted(self) -> ExecutableMapping {
        ExecutableMapping { unmapped: true, ..self }
    }
}

impl Clone for ExecutableMapping {
    fn clone(&self) -> (copy: ExecutableMapping)
        ensures
            copy == *self,
    {
        ExecutableMapping {
            executable_id: self.executable_id,
            build_id: match &self.build_id {
                Some(id) => Some(id.clone()),
                None => None,
            },
            kind: self.kind,
            start_addr: self.start_addr,
            end_addr: self.end_addr,
            offset: self.offset,
            load_address: self.load_address,
            main_exec: self.main_exec,
            unmapped: self.unmapped,
        }
    }
}

/// The executable mappings of a process, in the order of its memory map.
#[derive(Debug)]
pub struct ExecutableMappings(pub Vec<ExecutableMapping>);

impl View for ExecutableMappings {
    type V = Seq<ExecutableMapping>;

    open spec fn view(&self) -> Seq<ExecutableMapping> {
        self.0@
    }
}

impl ExecutableMappings {
    /// The first mapping that spans the address, if one does.
    pub fn for_address(&self, addr: u64) -> (found: Option<ExecutableMapping>)
        ensures
            match found {
                Some(mapping) => exists|i: int|
                    0 <= i < self@.len() && mapping == #[trigger] self@[i] && mapping.spans(addr)
                        && forall|j: int| 0 <= j < i ==> !(#[trigger] self@[j]).spans(addr),
                None => forall|i: int| 0 <= i < self@.len() ==> !(#[trigger] self@[i]).spans(addr),
            },
    {
        let n: usize = self.0.len();
        let mut i: usize = 0;
        while i < n
            invariant
                i <= n,
                n == self@.len(),
                forall|j: int| 0 <= j < i ==> !(#[trigger] self@[j]).spans(addr),
            decreases n - i,
        {
            if self.0[i].start_addr <= addr && addr <= self.0[i].end_addr {
                return Some(self.0[i].clone());
            }
            i += 1;
        }
        None
    }
}

impl Clone for ExecutableMappings {
    fn clone(&self) -> (copy: ExecutableMappings)
        ensures
            copy@ == self@,
    {
        let mut mappings: Vec<ExecutableMapping> = Vec::new();
        let n: usize = self.0.len();
        let mut i: usize = 0;
        while i < n
            invariant
                i <= n,
                n == self@.len(),
                mappings@ == self@.subrange(0, i as int),
            decreases n - i,
        {
            mappings.push(self.0[i].clone());
            assert(self@.subrange(0, i + 1) == self@.subrange(0, i as int).push(self@[i as int]));
            i += 1;
        }
        assert(self@.subrange(0, n as int) == self@);
        ExecutableMappings(mappings)
    }
}

/// A process and its executable mappings.
#[derive(Debug)]
pub struct ProcessInfo {
    pub status: ProcessStatus,
    pub mappings: ExecutableMappings,
}

impl Clone for ProcessInfo {
    fn clone(&self) -> (copy: ProcessInfo)
        ensures
            copy.status == self.status,
            copy.mappings@ == self.mappings@,
    {
        ProcessInfo { status: self.status, mappings: self.mappings.clone() }
    }
}

/// What is kept of an object file. The open file itself stays with the
/// caller, which holds it for as long as this entry exists.
#[derive(Debug)]
pub struct ObjectFileInfo {
    pub path: String,
    /// The file offset of the first loadable segment that can be executed.
    pub load_offset: u64,
    /// The virtual address of that segment.
    pub load_vaddr: u64,
    /// The file is position independent.
    pub is_dyn: bool,
    /// The number of mappings in use that the file backs.
    pub references: i64,
}

impl Clone for ObjectFileInfo {
    fn clone(&self) -> (copy: ObjectFileInfo)
        ensures
            copy == *self,
    {
        ObjectFileInfo {
            path: self.path.clone(),
            load_offset: self.load_offset,
            load_vaddr: self.load_vaddr,
            is_dyn: self.is_dyn,
            references: self.references,
        }
    }
}

} // verus!
