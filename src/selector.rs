//! Choice of the core on which the launcher runs, away from the cores that
//! the benchmark is given, and the binding to it.

use vstd::prelude::*;
use crate::affinity::{pin_current, usable_core_ids};
use crate::settings::Settings;
use crate::topology::ProzessorSpecs;

verus! {

/// No logical id of physical core `p` (ids `p * t .. p * t + t`) is reserved.
pub open spec fn phys_free(kerne: Seq<u32>, p: nat, t: nat) -> bool {
    forall|id: int| p * t <= id < p * t + t ==> !kerne.contains(#[trigger] (id as u32))
}

/// The highest physical core below `count` that is fully free.
pub open spec fn highest_free_phys(kerne: Seq<u32>, t: nat, count: nat) -> Option<nat>
    decreases count,
{
    if count == 0 {
        None
    } else if phys_free(kerne, (count - 1) as nat, t) {
        Some((count - 1) as nat)
    } else {
        highest_free_phys(kerne, t, (count - 1) as nat)
    }
}

/// The highest logical core below `count` that is not reserved.
pub open spec fn highest_free_logical(kerne: Seq<u32>, count: nat) -> Option<nat>
    decreases count,
{
    if count == 0 {
        None
    } else if !kerne.contains((count - 1) as u32) {
        Some((count - 1) as nat)
    } else {
        highest_free_logical(kerne, (count - 1) as nat)
    }
}

/// The core the launcher takes: the lowest logical id of the highest fully
/// free physical core; else the highest free logical core; else the last
/// logical core.
pub open spec fn chosen_core(kerne: Seq<u32>, p: &ProzessorSpecs) -> nat {
    match highest_free_phys(kerne, p.threads as nat, p.physisch as nat) {
        Some(q) => q * (p.threads as nat),
        None => match highest_free_logical(kerne, p.logisch as nat) {
            Some(x) => x,
            None => (p.logisch - 1) as nat,
        },
    }
}

fn contains_u32(v: &Vec<u32>, x: u32) -> (r: bool)
    ensures
        r == v@.contains(x),
{
    let mut i: usize = 0;
    while i < v.len()
        invariant
            i <= v@.len(),
            forall|j: int| 0 <= j < i ==> v@[j] != x,
        decreases v@.len() - i,
    {
        if v[i] == x {
            return true;
        }
        i = i + 1;
    }
    false
}

/// Whether none of the ids `start .. start + t` is reserved.
fn block_free(kerne: &Vec<u32>, start: u32, t: u32) -> (r: bool)
    requires
        start + t <= u32::MAX,
    ensures
        r == forall|id: int| start <= id < start + t ==> !kerne@.contains(#[trigger] (id as u32)),
{
    let mut id = start;
    let end = start + t;
    while id < end
        invariant
            start <= id <= end == start + t,
            forall|j: int| start <= j < id ==> !kerne@.contains(#[trigger] (j as u32)),
        decreases end - id,
    {
        if contains_u32(kerne, id) {
            assert(kerne@.contains((id as int) as u32));
            return false;
        }
        id = id + 1;
    }
    true
}

/// The core on which the launcher runs, given the cores reserved for the
/// benchmark.
pub fn select_core(kerne: &Vec<u32>, prozessor: &ProzessorSpecs) -> (r: u32)
    requires
        prozessor.wf(),
    ensures
        r == chosen_core(kerne@, prozessor),
        r < prozessor.logisch,
        (forall|id: int| 0 <= id < prozessor.logisch ==> kerne@.contains(#[trigger] (id as u32)))
            ==> r == prozessor.logisch - 1,
{
    let t = prozessor.threads;
    let p = prozessor.physisch;
    let l = prozessor.logisch;
    assert(p * t <= l) by (nonlinear_arith)
        requires
            t == l / p,
            p > 0,
    {
        assert(l == p * (l / p) + l % p);
    }
    let mut count = p;
    while count > 0
        invariant
            count <= p,
            p * t <= l,
            prozessor.wf(),
            t == prozessor.threads,
            p == prozessor.physisch,
            l == prozessor.logisch,
            highest_free_phys(kerne@, t as nat, p as nat) == highest_free_phys(
                kerne@,
                t as nat,
                count as nat,
            ),
        decreases count,
    {
        let q = count - 1;
        assert(q * t + t <= p * t) by (nonlinear_arith)
            requires
                q < p,
        ;
        let start = q * t;
        if block_free(kerne, start, t) {
            assert(start < l) by (nonlinear_arith)
                requires
                    start + t <= l,
                    t > 0,
            ;
            return start;
        }
        count = q;
    }
    let mut id = l;
    while id > 0
        invariant
            id <= l,
            prozessor.wf(),
            l == prozessor.logisch,
            highest_free_phys(kerne@, t as nat, p as nat) is None,
            t == prozessor.threads,
            p == prozessor.physisch,
            highest_free_logical(kerne@, l as nat) == highest_free_logical(kerne@, id as nat),
            forall|j: int| id <= j < l ==> kerne@.contains(#[trigger] (j as u32)),
        decreases id,
    {
        if !contains_u32(kerne, id - 1) {
            return id - 1;
        }
        assert(kerne@.contains(((id - 1) as int) as u32));
        id = id - 1;
    }
    l - 1
}

/// Why the launcher could not bind itself to its core.
#[derive(Debug, Clone, Copy, PartialEq, Eq, Structural)]
pub enum PinError {
    /// The platform does not tell which cores may be used.
    Unavailable,
    /// The chosen index is beyond the cores the platform lists.
    OutOfRange,
    /// The platform refused the binding.
    Refused,
}

/// The platform's id of the `index`-th usable core, given the list of usable
/// core ids that the platform reported (None where it reported none).
pub fn core_handle(ids: &Option<Vec<usize>>, index: u32) -> (r: Result<usize, PinError>)
    ensures
        match ids {
            None => r == Err::<usize, PinError>(PinError::Unavailable),
            Some(v) => if index < v@.len() {
                r == Ok::<usize, PinError>(v@[index as int])
            } else {
                r == Err::<usize, PinError>(PinError::OutOfRange)
            },
        },
{
    match ids {
        None => Err(PinError::Unavailable),
        Some(v) => {
            if (index as usize) < v.len() {
                Ok(v[index as usize])
            } else {
                Err(PinError::OutOfRange)
            }
        },
    }
}

/// Binds the launcher to the core that `select_core` chooses, and returns
/// that core's logical index.
pub fn pinnen(einstellungen: &Settings, prozessor: &ProzessorSpecs) -> (r: Result<u32, PinError>)
    requires
        prozessor.wf(),
    ensures
        r matches Ok(id) ==> id == chosen_core(einstellungen.kerne@, prozessor),
{
    let frei = select_core(&einstellungen.kerne, prozessor);
    let ids = usable_core_ids();
    let handle = core_handle(&ids, frei)?;
    if pin_current(handle) {
        Ok(frei)
    } else {
        Err(PinError::Refused)
    }
}

} // verus!
