//! The host's affinity facility, through the core_affinity crate.

use vstd::prelude::*;

verus! {

/// Number of cores that a Linux CPU set can name (`CPU_SETSIZE`).
pub const CPU_SET_CAPACITY: usize = 1024;

/// Relies on core_affinity::get_core_ids: the ids of the cores on which the
/// current thread may run, or None where the platform cannot tell. On Linux it
/// walks the ids below `CPU_SETSIZE` upwards and keeps those in the thread's
/// affinity mask, so the ids come back ascending and below that size. Which
/// ids come back depends on the machine.
#[verifier::external_body]
pub(crate) fn usable_core_ids() -> (r: Option<Vec<usize>>)
    ensures
        r matches Some(v) ==> (forall|i: int| 0 <= i < v@.len() ==> v@[i] < CPU_SET_CAPACITY),
        r matches Some(v) ==> (forall|i: int, j: int| 0 <= i < j < v@.len() ==> v@[i] < v@[j]),
{
    core_affinity::get_core_ids().map(|ids| ids.into_iter().map(|c| c.id).collect())
}

/// Relies on core_affinity::set_for_current: binds the current thread to the
/// core with this id, and reports whether the platform accepted it. On Linux
/// the id is set in a `cpu_set_t` of `CPU_SETSIZE` bits, which panics on a
/// larger id.
#[verifier::external_body]
pub(crate) fn pin_current(id: usize) -> (r: bool)
    requires
        id < CPU_SET_CAPACITY,
{
    core_affinity::set_for_current(core_affinity::CoreId { id })
}

} // verus!
