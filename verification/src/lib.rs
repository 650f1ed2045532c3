//! Core logic of a whole-system sampling profiler that unwinds stacks with
//! DWARF call-frame information from inside the kernel.
//!
//! The crate holds the parts that decide and compute: the compact unwind
//! table, how it is made from call-frame information and how it is
//! shrunk, the shard manager that packs tables into fixed-size shards, the
//! process tracker, the binary layout of the tables shared with the kernel
//! side, the samples that come back, and the decisions of the control
//! loop. Reading files, talking to the kernel and waiting on channels is
//! left to the program built around it.

pub mod address_range;
pub mod bytes;
pub mod extract;
pub mod layout;
pub mod mapping;
pub mod memory_map;
pub mod object;
pub mod process;
pub mod profiler;
pub mod sample;
pub mod shard;
pub mod shard_laws;
pub mod table_laws;
pub mod text;
pub mod tracker;
pub mod unwind_info;
pub mod unwind_laws;
