//! The execution context of one guest instance.
use vstd::prelude::*;
use crate::memory::GuestMemory;
use crate::paths::PathMap;

verus! {

/// What a shim call works on: the instance's linear memory and its path
/// mapping table. Each call borrows it exclusively.
pub struct Ctx {
    pub memory: GuestMemory,
    pub mapped_dirs: PathMap,
}

impl Ctx {
    /// A context over `memory` with the mapping table `mapped_dirs`.
    pub fn new(memory: GuestMemory, mapped_dirs: PathMap) -> (r: Ctx)
        ensures
            r.memory@ == memory@,
            r.mapped_dirs@ == mapped_dirs@,
    {
        Ctx { memory, mapped_dirs }
    }
}

} // verus!
