//! The parsed representation of a dump, and the outward error taxonomy.
//!
//! String-valued fields are owned copies of the corresponding input bytes,
//! one character per byte, so a `Profile` is independent of the input buffer
//! it was parsed from.
use crate::grammar::{SpecMappedLibrary, SpecProfile, SpecStack, SpecThread};
use vstd::prelude::*;

verus! {

/// Why an input was rejected: the magic token is not `heap_v2`, or some rule
/// of the structural grammar did not match.
#[derive(Debug, Clone, Copy, PartialEq, Eq, Structural)]
pub enum ParseError {
    UnsupportedFormat,
    ParseFailure,
}

/// One statistics line: a thread id (digits, or `*` for the cross-thread
/// aggregate), the currently-live allocation count and bytes, and the
/// cumulative allocation count and bytes.
#[derive(Debug)]
pub struct Thread {
    pub id: String,
    pub inuse_count: u64,
    pub inuse_space: u64,
    pub alloc_count: u64,
    pub alloc_space: u64,
}

impl View for Thread {
    type V = SpecThread;

    open spec fn view(&self) -> SpecThread {
        SpecThread {
            id: self.id@,
            inuse_count: self.inuse_count,
            inuse_space: self.inuse_space,
            alloc_count: self.alloc_count,
            alloc_space: self.alloc_space,
        }
    }
}

/// The specification values of a sequence of parsed statistics lines.
pub open spec fn threads_view(ts: Seq<Thread>) -> Seq<SpecThread> {
    ts.map(|i: int, t: Thread| t@)
}

/// One call chain: its addresses exactly in source order, innermost frame
/// first, and the per-thread breakdown attributed to it.
#[derive(Debug)]
pub struct Stack {
    pub addrs: Vec<u64>,
    pub threads: Vec<Thread>,
}

impl View for Stack {
    type V = SpecStack;

    open spec fn view(&self) -> SpecStack {
        SpecStack { addrs: self.addrs@, threads: threads_view(self.threads@) }
    }
}

/// The specification values of a sequence of parsed stack blocks.
pub open spec fn stacks_view(sts: Seq<Stack>) -> Seq<SpecStack> {
    sts.map(|i: int, st: Stack| st@)
}

/// One row of the process memory map: the bounding addresses of one
/// contiguous region and its backing file path.
#[derive(Debug)]
pub struct MappedLibrary {
    pub first: u64,
    pub last: u64,
    pub path: String,
}

impl View for MappedLibrary {
    type V = SpecMappedLibrary;

    open spec fn view(&self) -> SpecMappedLibrary {
        SpecMappedLibrary { first: self.first, last: self.last, path: self.path@ }
    }
}

/// The specification values of a sequence of parsed memory-map rows.
pub open spec fn maplibs_view(ms: Seq<MappedLibrary>) -> Seq<SpecMappedLibrary> {
    ms.map(|i: int, m: MappedLibrary| m@)
}

/// A parsed jemalloc `heap_v2` profile.
#[derive(Debug)]
pub struct Profile {
    /// The profiler's byte interval between samples.
    pub sampling_rate: u64,
    /// The program-wide aggregate block immediately after the header.
    pub totals: Vec<Thread>,
    /// One entry per distinct call chain, in source order.
    pub stacks: Vec<Stack>,
    /// The memory map at dump time; rows with an empty path are excluded.
    pub mapped_libraries: Vec<MappedLibrary>,
}

impl View for Profile {
    type V = SpecProfile;

    open spec fn view(&self) -> SpecProfile {
        SpecProfile {
            sampling_rate: self.sampling_rate,
            totals: threads_view(self.totals@),
            stacks: stacks_view(self.stacks@),
            mapped_libraries: maplibs_view(self.mapped_libraries@),
        }
    }
}

} // verus!
