//! The process tracker: which processes are known, which mappings they
//! have, and how many mappings in use each object file backs.

use vstd::prelude::*;
use std::collections::HashMap;
use crate::memory_map::{load_address, load_base, MapPath, MemoryMap, ObjectFile, ObjectFileError};
use crate::process::{
    ExecutableId, ExecutableMapping, ExecutableMappings, MappingType, ObjectFileInfo, ProcessInfo,
    ProcessStatus,
};

verus! {

broadcast use vstd::std_specs::hash::group_hash_axioms;

/// The mappings in use that the object file `id` backs, each as the process
/// it belongs to and its place among that process's mappings.
pub open spec fn live_references(procs: Map<i32, ProcessInfo>, id: ExecutableId) -> Set<(i32, int)> {
    Set::new(
        |r: (i32, int)|
            procs.contains_key(r.0) && 0 <= r.1 < procs[r.0].mappings@.len()
                && procs[r.0].mappings@[r.1].refers_to(id),
    )
}

/// Every object file counts the mappings in use that it backs, and every
/// file-backed mapping in use has its object file.
pub open spec fn references_are_exact(
    procs: Map<i32, ProcessInfo>,
    object_files: Map<ExecutableId, ObjectFileInfo>,
) -> bool {
    &&& forall|id: ExecutableId| #[trigger]
        object_files.contains_key(id) ==> live_references(procs, id).finite()
            && object_files[id].references == live_references(procs, id).len()
    &&& forall|pid: i32, i: int|
        procs.contains_key(pid) && 0 <= i < procs[pid].mappings@.len() && (
        #[trigger] procs[pid].mappings@[i]).kind == MappingType::FileBacked
            && !procs[pid].mappings@[i].unmapped ==> object_files.contains_key(
            procs[pid].mappings@[i].executable_id,
        )
}

/// The two tables hold the same object files, which differ at most in
/// their counts.
pub open spec fn same_files(
    before: Map<ExecutableId, ObjectFileInfo>,
    after: Map<ExecutableId, ObjectFileInfo>,
) -> bool {
    &&& before.dom() == after.dom()
    &&& forall|id: ExecutableId| #[trigger]
        before.contains_key(id) ==> after[id] == (ObjectFileInfo {
            references: after[id].references,
            ..before[id]
        })
}

/// Whether a mapping goes when the mappings that start at `only_at` go, or,
/// without an address, when all go.
pub open spec fn selected(mapping: ExecutableMapping, only_at: Option<u64>) -> bool {
    match only_at {
        Some(start) => mapping.start_addr == start,
        None => true,
    }
}

/// The mappings once the selected ones are gone.
pub open spec fn retired(mappings: Seq<ExecutableMapping>, only_at: Option<u64>) -> Seq<
    ExecutableMapping,
> {
    Seq::new(
        mappings.len(),
        |i: int|
            if selected(mappings[i], only_at) {
                mappings[i].deleted()
            } else {
                mappings[i]
            },
    )
}

/// The object files with each count set to the number of mappings in use
/// that the file backs.
pub open spec fn recounted(
    procs: Map<i32, ProcessInfo>,
    object_files: Map<ExecutableId, ObjectFileInfo>,
) -> Map<ExecutableId, ObjectFileInfo> {
    Map::new(
        |id: ExecutableId| object_files.contains_key(id),
        |id: ExecutableId|
            ObjectFileInfo {
                references: live_references(procs, id).len() as i64,
                ..object_files[id]
            },
    )
}

/// The mappings of a process and the object files, while the lines of the
/// process's memory map are gone through.
pub struct Gathered {
    pub mappings: Seq<ExecutableMapping>,
    pub object_files: Map<ExecutableId, ObjectFileInfo>,
}

/// One of the mappings is backed by a file.
pub open spec fn has_file_backed(mappings: Seq<ExecutableMapping>) -> bool {
    exists|i: int| 0 <= i < mappings.len() && (#[trigger] mappings[i]).kind == MappingType::FileBacked
}

/// The mapping for a line that no file backs.
pub open spec fn plain_mapping(map: MemoryMap, kind: MappingType) -> ExecutableMapping {
    ExecutableMapping {
        executable_id: 0,
        build_id: None,
        kind,
        start_addr: map.address.0,
        end_addr: map.address.1,
        offset: map.offset,
        load_address: 0,
        main_exec: false,
        unmapped: false,
    }
}

/// The mapping for a line that the file `object` backs.
pub open spec fn file_mapping(
    map: MemoryMap,
    object: ObjectFile,
    load_address: u64,
    main_exec: bool,
) -> ExecutableMapping {
    ExecutableMapping {
        executable_id: object.executable_id,
        build_id: Some(object.build_id),
        kind: MappingType::FileBacked,
        start_addr: map.address.0,
        end_addr: map.address.1,
        offset: map.offset,
        load_address,
        main_exec,
        unmapped: false,
    }
}

/// The load address that is recorded for a file-backed mapping: what is
/// subtracted from a sampled address to get the address that the unwind
/// table speaks of. It is the address at which the file is loaded, where
/// the first line that names the file begins; but for a main executable
/// that is not position independent it is 0, as its table speaks of the
/// addresses at which it runs.
pub open spec fn recorded_load_address(
    maps: Seq<MemoryMap>,
    path: Seq<char>,
    start: u64,
    main_exec: bool,
    is_dyn: bool,
) -> u64 {
    if main_exec && !is_dyn {
        0
    } else {
        load_base(maps, path, start)
    }
}

/// What line `k` of the memory map adds.
///
/// A line that cannot be executed adds nothing. A line for memory without
/// a file adds an anonymous mapping; one for the pages that the kernel
/// maps into every process, a vdso mapping. A line for a file adds a
/// mapping if the file was opened and read, and then the file's count
/// goes up by one, or the file is entered with a count of one. The first
/// such mapping of the process is its main executable. Its load address
/// is where the file is loaded, but 0 for a main executable that is not
/// position independent. A file whose count cannot go up is passed over
/// like one that could not be opened.
pub open spec fn track_line(so_far: Gathered, maps: Seq<MemoryMap>, k: int) -> Gathered {
    let map = maps[k];
    if !map.executable() {
        so_far
    } else {
        match map.pathname {
            MapPath::Path(path) => match map.object {
                Some(Ok(object)) => {
                    let id = object.executable_id;
                    let files = so_far.object_files;
                    if !map.wants_file() || (files.contains_key(id) && files[id].references
                        == i64::MAX) {
                        so_far
                    } else {
                        Gathered {
                            mappings: so_far.mappings.push(
                                file_mapping(
                                    map,
                                    object,
                                    recorded_load_address(
                                        maps,
                                        path@,
                                        map.address.0,
                                        !has_file_backed(so_far.mappings),
                                        object.is_dyn,
                                    ),
                                    !has_file_backed(so_far.mappings),
                                ),
                            ),
                            object_files: files.insert(
                                id,
                                if files.contains_key(id) {
                                    ObjectFileInfo {
                                        references: (files[id].references + 1) as i64,
                                        ..files[id]
                                    }
                                } else {
                                    ObjectFileInfo {
                                        path,
                                        load_offset: object.load_offset,
                                        load_vaddr: object.load_vaddr,
                                        is_dyn: object.is_dyn,
                                        references: 1,
                                    }
                                },
                            ),
                        }
                    }
                },
                _ => so_far,
            },
            MapPath::Anonymous => Gathered {
                mappings: so_far.mappings.push(plain_mapping(map, MappingType::Anonymous)),
                ..so_far
            },
            MapPath::Vsyscall | MapPath::Vdso | MapPath::Vsys(_) | MapPath::Vvar => Gathered {
                mappings: so_far.mappings.push(plain_mapping(map, MappingType::Vdso)),
                ..so_far
            },
            _ => so_far,
        }
    }
}

/// A line for a file that was read adds a mapping whose load address is
/// 0 where the mapping is the main executable, the first file-backed
/// mapping of the process, and its file is not position independent; any
/// other file-backed mapping gets the address at which its file is loaded.
pub proof fn lemma_load_address_convention(
    so_far: Gathered,
    maps: Seq<MemoryMap>,
    k: int,
    path: String,
    object: ObjectFile,
)
    requires
        0 <= k < maps.len(),
        maps[k].wants_file(),
        maps[k].pathname == MapPath::Path(path),
        maps[k].object == Some(Ok::<ObjectFile, ObjectFileError>(object)),
        !(so_far.object_files.contains_key(object.executable_id)
            && so_far.object_files[object.executable_id].references == i64::MAX),
    ensures
        ({
            let added = track_line(so_far, maps, k).mappings;
            let main_exec = !has_file_backed(so_far.mappings);
            &&& added.len() == so_far.mappings.len() + 1
            &&& added.last().kind == MappingType::FileBacked
            &&& added.last().executable_id == object.executable_id
            &&& added.last().main_exec == main_exec
            &&& main_exec && !object.is_dyn ==> added.last().load_address == 0
            &&& !(main_exec && !object.is_dyn) ==> added.last().load_address == load_base(
                maps,
                path@,
                maps[k].address.0,
            )
        }),
{
}

/// What the first `n` lines of the memory map add, one after the other.
pub open spec fn track_lines(start: Gathered, maps: Seq<MemoryMap>, n: int) -> Gathered
    decreases n,
{
    if n <= 0 {
        start
    } else {
        track_line(track_lines(start, maps, n - 1), maps, n - 1)
    }
}

/// One of the files of the memory map belongs to a runtime that cannot be
/// unwound.
pub open spec fn runs_unsupported(maps: Seq<MemoryMap>) -> bool {
    exists|k: int| 0 <= k < maps.len() && (#[trigger] maps[k]).runs_unsupported()
}

/// No mapping of the process is in use.
pub open spec fn all_unmapped(info: ProcessInfo) -> bool {
    forall|i: int| 0 <= i < info.mappings@.len() ==> (#[trigger] info.mappings@[i]).unmapped
}

proof fn lemma_recounted(
    procs: Map<i32, ProcessInfo>,
    before: Map<ExecutableId, ObjectFileInfo>,
    after: Map<ExecutableId, ObjectFileInfo>,
)
    requires
        same_files(before, after),
        references_are_exact(procs, after),
    ensures
        after == recounted(procs, before),
{
    assert(after.dom() =~= recounted(procs, before).dom());
    assert(after =~= recounted(procs, before));
}

proof fn lemma_drop_dead_record(
    procs: Map<i32, ProcessInfo>,
    object_files: Map<ExecutableId, ObjectFileInfo>,
    pid: i32,
    info: ProcessInfo,
)
    requires
        references_are_exact(procs, object_files),
        procs.contains_key(pid) ==> all_unmapped(procs[pid]),
        info.mappings@.len() == 0,
    ensures
        references_are_exact(procs.remove(pid), object_files),
        references_are_exact(procs.insert(pid, info), object_files),
{
    let removed = procs.remove(pid);
    let inserted = procs.insert(pid, info);
    assert forall|id: ExecutableId|
        live_references(removed, id) == live_references(procs, id) && live_references(
            inserted,
            id,
        ) == live_references(procs, id) by {
        assert forall|r: (i32, int)|
            live_references(removed, id).contains(r) == live_references(procs, id).contains(
                r,
            ) by {
            if r.0 == pid && procs.contains_key(pid) && 0 <= r.1 < procs[pid].mappings@.len() {
                assert(procs[pid].mappings@[r.1].unmapped);
            }
        }
        assert forall|r: (i32, int)|
            live_references(inserted, id).contains(r) == live_references(procs, id).contains(
                r,
            ) by {
            if r.0 == pid && procs.contains_key(pid) && 0 <= r.1 < procs[pid].mappings@.len() {
                assert(procs[pid].mappings@[r.1].unmapped);
            }
        }
        assert(live_references(removed, id) =~= live_references(procs, id));
        assert(live_references(inserted, id) =~= live_references(procs, id));
    }
    assert forall|p: i32, j: int|
        removed.contains_key(p) && 0 <= j < removed[p].mappings@.len() && (
        #[trigger] removed[p].mappings@[j]).kind == MappingType::FileBacked
            && !removed[p].mappings@[j].unmapped implies object_files.contains_key(
        removed[p].mappings@[j].executable_id,
    ) by {
        assert(procs[p].mappings@[j].kind == MappingType::FileBacked);
    }
    assert forall|p: i32, j: int|
        inserted.contains_key(p) && 0 <= j < inserted[p].mappings@.len() && (
        #[trigger] inserted[p].mappings@[j]).kind == MappingType::FileBacked
            && !inserted[p].mappings@[j].unmapped implies object_files.contains_key(
        inserted[p].mappings@[j].executable_id,
    ) by {
        assert(procs[p].mappings@[j].kind == MappingType::FileBacked);
    }
}

proof fn lemma_push_one(
    procs: Map<i32, ProcessInfo>,
    object_files: Map<ExecutableId, ObjectFileInfo>,
    pid: i32,
    info: ProcessInfo,
    mapping: ExecutableMapping,
    entry: ObjectFileInfo,
)
    requires
        references_are_exact(procs, object_files),
        procs.contains_key(pid),
        info.mappings@ == procs[pid].mappings@.push(mapping),
        !mapping.unmapped,
        mapping.kind == MappingType::FileBacked && !object_files.contains_key(
            mapping.executable_id,
        ) ==> entry.references == 1,
    ensures
        ({
            let id = mapping.executable_id;
            if mapping.kind == MappingType::FileBacked {
                if object_files.contains_key(id) {
                    object_files[id].references < i64::MAX ==> references_are_exact(
                        procs.insert(pid, info),
                        object_files.insert(
                            id,
                            ObjectFileInfo {
                                references: (object_files[id].references + 1) as i64,
                                ..object_files[id]
                            },
                        ),
                    )
                } else {
                    references_are_exact(procs.insert(pid, info), object_files.insert(id, entry))
                }
            } else {
                references_are_exact(procs.insert(pid, info), object_files)
            }
        }),
{
    let id = mapping.executable_id;
    let at = procs[pid].mappings@.len() as int;
    let after = procs.insert(pid, info);
    assert forall|other: ExecutableId|
        live_references(after, other) == (if mapping.refers_to(other) {
            live_references(procs, other).insert((pid, at))
        } else {
            live_references(procs, other)
        }) by {
        let expected = if mapping.refers_to(other) {
            live_references(procs, other).insert((pid, at))
        } else {
            live_references(procs, other)
        };
        assert forall|r: (i32, int)|
            live_references(after, other).contains(r) == expected.contains(r) by {
            if r.0 == pid && 0 <= r.1 < at {
                assert(info.mappings@[r.1] == procs[pid].mappings@[r.1]);
            }
        }
        assert(live_references(after, other) =~= expected);
    }
    assert(!live_references(procs, id).contains((pid, at)));
    let files = if mapping.kind == MappingType::FileBacked {
        if object_files.contains_key(id) {
            object_files.insert(
                id,
                ObjectFileInfo {
                    references: (object_files[id].references + 1) as i64,
                    ..object_files[id]
                },
            )
        } else {
            object_files.insert(id, entry)
        }
    } else {
        object_files
    };
    if mapping.kind == MappingType::FileBacked && !object_files.contains_key(id) {
        assert(live_references(procs, id) =~= Set::<(i32, int)>::empty()) by {
            assert forall|r: (i32, int)| !live_references(procs, id).contains(r) by {
                if live_references(procs, id).contains(r) {
                    assert(procs[r.0].mappings@[r.1].kind == MappingType::FileBacked);
                }
            }
        }
    }
    if mapping.kind != MappingType::FileBacked || !object_files.contains_key(id)
        || object_files[id].references < i64::MAX {
        assert forall|other: ExecutableId| #[trigger] files.contains_key(other) implies live_references(
            after,
            other,
        ).finite() && files[other].references == live_references(after, other).len() by {
            if other != id || mapping.kind != MappingType::FileBacked {
                assert(object_files.contains_key(other));
            }
        }
        assert forall|p: i32, j: int|
            after.contains_key(p) && 0 <= j < after[p].mappings@.len() && (
            #[trigger] after[p].mappings@[j]).kind == MappingType::FileBacked
                && !after[p].mappings@[j].unmapped implies files.contains_key(
            after[p].mappings@[j].executable_id,
        ) by {
            if p == pid && j < at {
                assert(info.mappings@[j] == procs[pid].mappings@[j]);
            }
            if p != pid || j < at {
                assert(procs[p].mappings@[j].kind == MappingType::FileBacked);
            }
        }
    }
}

proof fn lemma_unmap_one(
    procs: Map<i32, ProcessInfo>,
    object_files: Map<ExecutableId, ObjectFileInfo>,
    pid: i32,
    i: int,
    info: ProcessInfo,
)
    requires
        references_are_exact(procs, object_files),
        procs.contains_key(pid),
        0 <= i < procs[pid].mappings@.len(),
        info.mappings@ == procs[pid].mappings@.update(i, procs[pid].mappings@[i].deleted()),
    ensures
        ({
            let mapping = procs[pid].mappings@[i];
            let id = mapping.executable_id;
            if mapping.refers_to(id) {
                &&& object_files.contains_key(id)
                &&& object_files[id].references >= 1
                &&& references_are_exact(
                    procs.insert(pid, info),
                    object_files.insert(
                        id,
                        ObjectFileInfo {
                            references: (object_files[id].references - 1) as i64,
                            ..object_files[id]
                        },
                    ),
                )
            } else {
                references_are_exact(procs.insert(pid, info), object_files)
            }
        }),
{
    let mapping = procs[pid].mappings@[i];
    let id = mapping.executable_id;
    let after = procs.insert(pid, info);
    assert forall|other: ExecutableId|
        live_references(after, other) == (if mapping.refers_to(other) {
            live_references(procs, other).remove((pid, i))
        } else {
            live_references(procs, other)
        }) by {
        let expected = if mapping.refers_to(other) {
            live_references(procs, other).remove((pid, i))
        } else {
            live_references(procs, other)
        };
        assert forall|r: (i32, int)|
            live_references(after, other).contains(r) == expected.contains(r) by {
            if r.0 == pid && 0 <= r.1 < info.mappings@.len() {
                if r.1 != i {
                    assert(info.mappings@[r.1] == procs[pid].mappings@[r.1]);
                }
            }
        }
        assert(live_references(after, other) =~= expected);
    }
    if mapping.refers_to(id) {
        assert(live_references(procs, id).contains((pid, i)));
        let files = object_files.insert(
            id,
            ObjectFileInfo {
                references: (object_files[id].references - 1) as i64,
                ..object_files[id]
            },
        );
        assert forall|other: ExecutableId| #[trigger] files.contains_key(other) implies live_references(
            after,
            other,
        ).finite() && files[other].references == live_references(after, other).len() by {
            assert(object_files.contains_key(other));
        }
        assert forall|p: i32, j: int|
            after.contains_key(p) && 0 <= j < after[p].mappings@.len() && (
            #[trigger] after[p].mappings@[j]).kind == MappingType::FileBacked
                && !after[p].mappings@[j].unmapped implies files.contains_key(
            after[p].mappings@[j].executable_id,
        ) by {
            if p == pid {
                assert(j != i);
                assert(info.mappings@[j] == procs[pid].mappings@[j]);
            }
            assert(procs[p].mappings@[j].kind == MappingType::FileBacked);
        }
    } else {
        assert forall|other: ExecutableId| #[trigger]
            object_files.contains_key(other) implies live_references(after, other).finite()
            && object_files[other].references == live_references(after, other).len() by {
            assert(!mapping.refers_to(other) || other != id);
        }
        assert forall|p: i32, j: int|
            after.contains_key(p) && 0 <= j < after[p].mappings@.len() && (
            #[trigger] after[p].mappings@[j]).kind == MappingType::FileBacked
                && !after[p].mappings@[j].unmapped implies object_files.contains_key(
            after[p].mappings@[j].executable_id,
        ) by {
            if p == pid {
                if j != i {
                    assert(info.mappings@[j] == procs[pid].mappings@[j]);
                }
            }
            assert(procs[p].mappings@[j].kind == MappingType::FileBacked);
        }
    }
}

proof fn lemma_has_file_backed_push(mappings: Seq<ExecutableMapping>, mapping: ExecutableMapping)
    ensures
        has_file_backed(mappings.push(mapping)) == (has_file_backed(mappings) || mapping.kind
            == MappingType::FileBacked),
{
    let longer = mappings.push(mapping);
    if has_file_backed(mappings) {
        let i = choose|i: int|
            0 <= i < mappings.len() && (#[trigger] mappings[i]).kind == MappingType::FileBacked;
        assert(longer[i].kind == MappingType::FileBacked);
    }
    if mapping.kind == MappingType::FileBacked {
        assert(longer[mappings.len() as int].kind == MappingType::FileBacked);
    }
    if has_file_backed(longer) {
        let i = choose|i: int|
            0 <= i < longer.len() && (#[trigger] longer[i]).kind == MappingType::FileBacked;
        if i < mappings.len() {
            assert(mappings[i].kind == MappingType::FileBacked);
        }
    }
}

/// Says whether one of the files of the memory map belongs to a runtime
/// that cannot be unwound.
fn finds_unsupported(maps: &Vec<MemoryMap>) -> (found: bool)
    ensures
        found == runs_unsupported(maps@),
{
    let n: usize = maps.len();
    let mut k: usize = 0;
    while k < n
        invariant
            k <= n,
            n == maps.len(),
            forall|j: int| 0 <= j < k ==> !(#[trigger] maps[j]).runs_unsupported(),
        decreases n - k,
    {
        let unsupported = match &maps[k].object {
            Some(Err(ObjectFileError::UnsupportedRuntime)) => maps[k].wants_object_file(),
            _ => false,
        };
        if unsupported {
            return true;
        }
        k += 1;
    }
    false
}

/// The processes that are known, and the object files that back their
/// mappings.
pub struct ProcessTracker {
    procs: HashMap<i32, ProcessInfo>,
    object_files: HashMap<ExecutableId, ObjectFileInfo>,
}

impl ProcessTracker {
    /// The processes that are known.
    pub closed spec fn procs(&self) -> Map<i32, ProcessInfo> {
        self.procs@
    }

    /// The object files that back mappings of known processes.
    pub closed spec fn object_files(&self) -> Map<ExecutableId, ObjectFileInfo> {
        self.object_files@
    }

    /// Every object file counts the mappings in use that it backs.
    pub open spec fn wf(&self) -> bool {
        references_are_exact(self.procs(), self.object_files())
    }

    /// A tracker that knows no process.
    pub fn new() -> (tracker: ProcessTracker)
        ensures
            tracker.wf(),
            tracker.procs() == Map::<i32, ProcessInfo>::empty(),
            tracker.object_files() == Map::<ExecutableId, ObjectFileInfo>::empty(),
    {
        ProcessTracker { procs: HashMap::new(), object_files: HashMap::new() }
    }

    /// Says whether the process was added.
    pub fn process_is_known(&self, pid: i32) -> (known: bool)
        ensures
            known == self.procs().contains_key(pid),
    {
        self.procs.contains_key(&pid)
    }

    /// What is known of a process.
    pub fn process(&self, pid: i32) -> (info: Option<&ProcessInfo>)
        ensures
            match info {
                Some(info) => self.procs().contains_key(pid) && *info == self.procs()[pid],
                None => !self.procs().contains_key(pid),
            },
    {
        self.procs.get(&pid)
    }

    /// What is kept of an object file.
    pub fn object_file(&self, id: ExecutableId) -> (info: Option<&ObjectFileInfo>)
        ensures
            match info {
                Some(info) => self.object_files().contains_key(id) && *info
                    == self.object_files()[id],
                None => !self.object_files().contains_key(id),
            },
    {
        self.object_files.get(&id)
    }

    /// Marks the selected mappings of a process as gone, takes them off the
    /// counts of their object files, and gives the process a new status
    /// where one is handed in.
    fn retire(&mut self, pid: i32, only_at: Option<u64>, status: Option<ProcessStatus>)
        requires
            old(self).wf(),
        ensures
            final(self).wf(),
            retirement(old(self), final(self), pid, only_at, status),
    {
        let ghost before = self.procs@;
        let ghost files_before = self.object_files@;
        match self.procs.remove(&pid) {
            None => {
                assert(self.procs@ =~= before);
            },
            Some(info) => {
                let ghost rest = self.procs@;
                let ProcessInfo { status: old_status, mappings } = info;
                let ExecutableMappings(mut list) = mappings;
                let ghost at_first = list@;
                let new_status = match status {
                    Some(s) => s,
                    None => old_status,
                };
                assert(rest.insert(
                    pid,
                    ProcessInfo { status: new_status, mappings: ExecutableMappings(list) },
                ) =~= before.insert(
                    pid,
                    ProcessInfo { status: new_status, mappings: ExecutableMappings(list) },
                ));
                proof {
                    lemma_same_mappings(
                        before,
                        files_before,
                        pid,
                        ProcessInfo { status: new_status, mappings: ExecutableMappings(list) },
                    );
                }
                let n: usize = list.len();
                let mut i: usize = 0;
                while i < n
                    invariant
                        i <= n,
                        n == list.len(),
                        n == at_first.len(),
                        !rest.contains_key(pid),
                        self.procs@ == rest,
                        references_are_exact(
                            rest.insert(
                                pid,
                                ProcessInfo {
                                    status: new_status,
                                    mappings: ExecutableMappings(list),
                                },
                            ),
                            self.object_files@,
                        ),
                        same_files(files_before, self.object_files@),
                        forall|k: int|
                            0 <= k < i ==> list@[k] == (if selected(at_first[k], only_at) {
                                at_first[k].deleted()
                            } else {
                                at_first[k]
                            }),
                        forall|k: int| i <= k < n ==> list@[k] == at_first[k],
                    decreases n - i,
                {
                    let chosen = match only_at {
                        Some(start) => list[i].start_addr == start,
                        None => true,
                    };
                    if chosen && !list[i].unmapped {
                        let ghost current = rest.insert(
                            pid,
                            ProcessInfo { status: new_status, mappings: ExecutableMappings(list) },
                        );
                        let ghost files = self.object_files@;
                        let ghost mapping = list@[i as int];
                        let id = list[i].executable_id;
                        let file_backed = list[i].kind == MappingType::FileBacked;
                        list[i].unmapped = true;
                        assert(list@[i as int] == mapping.deleted());
                        proof {
                            lemma_unmap_one(
                                current,
                                files,
                                pid,
                                i as int,
                                ProcessInfo {
                                    status: new_status,
                                    mappings: ExecutableMappings(list),
                                },
                            );
                            assert(current.insert(
                                pid,
                                ProcessInfo {
                                    status: new_status,
                                    mappings: ExecutableMappings(list),
                                },
                            ) =~= rest.insert(
                                pid,
                                ProcessInfo {
                                    status: new_status,
                                    mappings: ExecutableMappings(list),
                                },
                            ));
                        }
                        if file_backed {
                            match self.object_files.remove(&id) {
                                Some(file) => {
                                    self.object_files.insert(
                                        id,
                                        ObjectFileInfo { references: file.references - 1, ..file },
                                    );
                                    assert(self.object_files@ =~= files.insert(
                                        id,
                                        ObjectFileInfo {
                                            references: (files[id].references - 1) as i64,
                                            ..files[id]
                                        },
                                    ));
                                },
                                None => {},
                            }
                        }
                    } else {
                        assert(list@[i as int] == at_first[i as int]);
                        assert(chosen ==> at_first[i as int].deleted() == at_first[i as int]);
                    }
                    i += 1;
                }
                assert(list@ =~= retired(at_first, only_at));
                self.procs.insert(
                    pid,
                    ProcessInfo { status: new_status, mappings: ExecutableMappings(list) },
                );
                assert(self.procs@.dom() =~= before.dom());
            },
        }
        proof {
            lemma_recounted(self.procs@, files_before, self.object_files@);
        }
    }

    /// Marks every mapping of the process that starts at `start_address` as
    /// gone, and takes each off the count of its object file. An unknown
    /// process is left alone.
    pub fn handle_munmap(&mut self, pid: i32, start_address: u64)
        requires
            old(self).wf(),
        ensures
            final(self).wf(),
            retirement(old(self), final(self), pid, Some(start_address), None),
    {
        self.retire(pid, Some(start_address), None);
    }

    /// Marks the process as exited and all its mappings as gone, and takes
    /// each off the count of its object file. The entry stays, so that
    /// samples that come in late can still be read. An unknown process is
    /// left alone.
    pub fn handle_process_exit(&mut self, pid: i32)
        requires
            old(self).wf(),
        ensures
            final(self).wf(),
            retirement(old(self), final(self), pid, None, Some(ProcessStatus::Exited)),
    {
        self.retire(pid, None, Some(ProcessStatus::Exited));
    }

    /// Enters a process with the executable mappings of its memory map,
    /// and counts them on their object files.
    ///
    /// Where one of the files belongs to a runtime that cannot be unwound,
    /// the process is refused and nothing changes. Where the process was
    /// entered before, its earlier mappings are taken off the counts first
    /// and the new entry takes the place of the old.
    pub fn add_proc(&mut self, pid: i32, maps: &Vec<MemoryMap>) -> (result: Result<
        (),
        ObjectFileError,
    >)
        requires
            old(self).wf(),
        ensures
            final(self).wf(),
            enrolment(old(self), final(self), pid, maps@, result),
    {
        if finds_unsupported(maps) {
            return Err(ObjectFileError::UnsupportedRuntime);
        }
        let ghost before = self.procs@;
        let ghost files_before = self.object_files@;
        self.retire(pid, None, None);
        let ghost retired_procs = self.procs@;
        let _ = self.procs.remove(&pid);
        let ghost rest = self.procs@;
        let mut list: Vec<ExecutableMapping> = Vec::new();
        let mut seen_file_backed = false;
        let ghost start = Gathered { mappings: Seq::empty(), object_files: self.object_files@ };
        proof {
            let empty = ProcessInfo {
                status: ProcessStatus::Running,
                mappings: ExecutableMappings(list),
            };
            lemma_drop_dead_record(retired_procs, self.object_files@, pid, empty);
            assert(rest =~= before.remove(pid));
            lemma_recounted(rest, files_before, self.object_files@);
            lemma_drop_dead_record(rest, self.object_files@, pid, empty);
        }
        let n: usize = maps.len();
        let mut k: usize = 0;
        while k < n
            invariant
                k <= n,
                n == maps.len(),
                self.procs@ == rest,
                !rest.contains_key(pid),
                (Gathered { mappings: list@, object_files: self.object_files@ }) == track_lines(
                    start,
                    maps@,
                    k as int,
                ),
                references_are_exact(
                    rest.insert(
                        pid,
                        ProcessInfo {
                            status: ProcessStatus::Running,
                            mappings: ExecutableMappings(list),
                        },
                    ),
                    self.object_files@,
                ),
                seen_file_backed == has_file_backed(list@),
            decreases n - k,
        {
            let map = &maps[k];
            let ghost current = rest.insert(
                pid,
                ProcessInfo { status: ProcessStatus::Running, mappings: ExecutableMappings(list) },
            );
            let ghost files = self.object_files@;
            let ghost so_far = Gathered { mappings: list@, object_files: files };
            let mut added: Option<ExecutableMapping> = None;
            if map.is_executable() {
                match &map.pathname {
                    MapPath::Path(path) => {
                        if map.wants_object_file() {
                            match &map.object {
                                Some(Ok(object)) => {
                                    let id = object.executable_id;
                                    let count: Option<i64> = match self.object_files.get(&id) {
                                        Some(file) => Some(file.references),
                                        None => None,
                                    };
                                    let full = match count {
                                        Some(c) => c == i64::MAX,
                                        None => false,
                                    };
                                    if !full {
                                        let base = if !seen_file_backed && !object.is_dyn {
                                            0
                                        } else {
                                            load_address(maps, path, map.address.0)
                                        };
                                        added =
                                        Some(
                                            ExecutableMapping {
                                                executable_id: id,
                                                build_id: Some(object.build_id.clone()),
                                                kind: MappingType::FileBacked,
                                                start_addr: map.address.0,
                                                end_addr: map.address.1,
                                                offset: map.offset,
                                                load_address: base,
                                                main_exec: !seen_file_backed,
                                                unmapped: false,
                                            },
                                        );
                                        match self.object_files.remove(&id) {
                                            Some(file) => {
                                                self.object_files.insert(
                                                    id,
                                                    ObjectFileInfo {
                                                        references: file.references + 1,
                                                        ..file
                                                    },
                                                );
                                            },
                                            None => {
                                                self.object_files.insert(
                                                    id,
                                                    ObjectFileInfo {
                                                        path: path.clone(),
                                                        load_offset: object.load_offset,
                                                        load_vaddr: object.load_vaddr,
                                                        is_dyn: object.is_dyn,
                                                        references: 1,
                                                    },
                                                );
                                            },
                                        }
                                        assert(self.object_files@ =~= track_line(
                                            so_far,
                                            maps@,
                                            k as int,
                                        ).object_files);
                                    }
                                },
                                _ => {},
                            }
                        }
                    },
                    MapPath::Anonymous => {
                        added =
                        Some(
                            ExecutableMapping {
                                executable_id: 0,
                                build_id: None,
                                kind: MappingType::Anonymous,
                                start_addr: map.address.0,
                                end_addr: map.address.1,
                                offset: map.offset,
                                load_address: 0,
                                main_exec: false,
                                unmapped: false,
                            },
                        );
                    },
                    MapPath::Vsyscall | MapPath::Vdso | MapPath::Vsys(_) | MapPath::Vvar => {
                        added =
                        Some(
                            ExecutableMapping {
                                executable_id: 0,
                                build_id: None,
                                kind: MappingType::Vdso,
                                start_addr: map.address.0,
                                end_addr: map.address.1,
                                offset: map.offset,
                                load_address: 0,
                                main_exec: false,
                                unmapped: false,
                            },
                        );
                    },
                    _ => {},
                }
            }
            match added {
                Some(mapping) => {
                    proof {
                        lemma_has_file_backed_push(list@, mapping);
                    }
                    if mapping.kind == MappingType::FileBacked {
                        seen_file_backed = true;
                    }
                    let ghost entry = self.object_files@[mapping.executable_id];
                    list.push(mapping);
                    proof {
                        let info = ProcessInfo {
                            status: ProcessStatus::Running,
                            mappings: ExecutableMappings(list),
                        };
                        lemma_push_one(current, files, pid, info, mapping, entry);
                        assert(current.insert(pid, info) =~= rest.insert(pid, info));
                    }
                },
                None => {},
            }
            k += 1;
        }
        self.procs.insert(
            pid,
            ProcessInfo { status: ProcessStatus::Running, mappings: ExecutableMappings(list) },
        );
        assert(self.procs@.dom() =~= before.dom().insert(pid));
        Ok(())
    }
}

/// How the tracker changes when the selected mappings of a process go:
/// they are marked as gone, the process gets the new status where one is
/// given, every other process stays as it is, and the object files keep
/// all but their counts. An unknown process changes nothing.
pub open spec fn retirement(
    before: &ProcessTracker,
    after: &ProcessTracker,
    pid: i32,
    only_at: Option<u64>,
    status: Option<ProcessStatus>,
) -> bool {
    &&& after.procs().dom() == before.procs().dom()
    &&& forall|p: i32|
        p != pid && before.procs().contains_key(p) ==> (#[trigger] after.procs()[p])
            == before.procs()[p]
    &&& before.procs().contains_key(pid) ==> after.procs()[pid].status == (match status {
        Some(s) => s,
        None => before.procs()[pid].status,
    }) && after.procs()[pid].mappings@ == retired(before.procs()[pid].mappings@, only_at)
    &&& same_files(before.object_files(), after.object_files())
    &&& after.object_files() == recounted(after.procs(), before.object_files())
}

/// How the tracker changes when a process is entered with its memory map.
///
/// Where one of the files belongs to a runtime that cannot be unwound, the
/// process is refused and nothing changes. Else the process is entered as
/// running, with the mappings that the lines of its map add; the object
/// files are those that count the mappings of the other processes, with
/// what the lines add.
pub open spec fn enrolment(
    before: &ProcessTracker,
    after: &ProcessTracker,
    pid: i32,
    maps: Seq<MemoryMap>,
    result: Result<(), ObjectFileError>,
) -> bool {
    match result {
        Err(e) => {
            &&& e == ObjectFileError::UnsupportedRuntime
            &&& runs_unsupported(maps)
            &&& after.procs() == before.procs()
            &&& after.object_files() == before.object_files()
        },
        Ok(_) => {
            let start = Gathered {
                mappings: Seq::empty(),
                object_files: recounted(before.procs().remove(pid), before.object_files()),
            };
            let gathered = track_lines(start, maps, maps.len() as int);
            &&& !runs_unsupported(maps)
            &&& after.procs().dom() == before.procs().dom().insert(pid)
            &&& forall|p: i32|
                p != pid && before.procs().contains_key(p) ==> (#[trigger] after.procs()[p])
                    == before.procs()[p]
            &&& after.procs()[pid].status == ProcessStatus::Running
            &&& after.procs()[pid].mappings@ == gathered.mappings
            &&& after.object_files() == gathered.object_files
        },
    }
}

proof fn lemma_same_mappings(
    procs: Map<i32, ProcessInfo>,
    object_files: Map<ExecutableId, ObjectFileInfo>,
    pid: i32,
    info: ProcessInfo,
)
    requires
        references_are_exact(procs, object_files),
        procs.contains_key(pid),
        info.mappings@ == procs[pid].mappings@,
    ensures
        references_are_exact(procs.insert(pid, info), object_files),
{
    let after = procs.insert(pid, info);
    assert forall|id: ExecutableId| live_references(after, id) == live_references(procs, id) by {
        assert(live_references(after, id) =~= live_references(procs, id));
    }
    assert forall|p: i32, j: int|
        after.contains_key(p) && 0 <= j < after[p].mappings@.len() && (
        #[trigger] after[p].mappings@[j]).kind == MappingType::FileBacked
            && !after[p].mappings@[j].unmapped implies object_files.contains_key(
        after[p].mappings@[j].executable_id,
    ) by {
        assert(procs[p].mappings@[j].kind == MappingType::FileBacked);
    }
}

} // verus!
