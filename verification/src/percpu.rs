//! Per-processor state.
use vstd::prelude::*;

verus! {

/// Processors the kernel serves at most.
pub const MAX_CPUS: usize = 8;

/// What one processor needs at hand.
#[derive(Clone, Copy)]
pub struct PerCpu {
    pub cpu_index: usize,
    /// The thread it runs.
    pub current: usize,
    /// The thread it runs when nothing is ready.
    pub idle_tid: usize,
    /// Kernel stack of the running thread.
    pub kstack_top: u64,
    /// User stack pointer, parked across a kernel entry.
    pub user_rsp: u64,
}

/// Whether any processor's state has been set up.
pub fn ready(cpus: &Vec<PerCpu>) -> (b: bool)
    ensures
        b == (cpus@.len() > 0),
{
    cpus.len() > 0
}

} // verus!
