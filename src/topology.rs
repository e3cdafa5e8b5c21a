//! The host topology: model name and core counts, read from the textual
//! processor description that the platform provides.

use vstd::prelude::*;
use crate::affinity::usable_core_ids;
use crate::text::{chars_of, len_before, parse_u32, parse_u32_range, position_of, trim, trim_range};

verus! {

/// The first line of `s` that begins with `key`.
pub open spec fn find_line(s: Seq<char>, key: Seq<char>) -> Option<Seq<char>>
    decreases s.len(),
{
    let n = len_before(s, '\n');
    if n <= s.len() && key.is_prefix_of(s.take(n as int)) {
        Some(s.take(n as int))
    } else if n < s.len() {
        find_line(s.skip(n + 1 as int), key)
    } else {
        None
    }
}

/// The value of the first `key: value` line of `s`: what follows the line's
/// first colon, trimmed. None where no line begins with `key`, or where the
/// first one that does has no colon.
pub open spec fn field_value(s: Seq<char>, key: Seq<char>) -> Option<Seq<char>> {
    match find_line(s, key) {
        Some(line) => {
            let k = len_before(line, ':');
            if k < line.len() {
                Some(trim(line.skip(k + 1 as int)))
            } else {
                None
            }
        },
        None => None,
    }
}

/// Whether `cs[lo..hi]` begins with `key`.
fn starts_with(cs: &Vec<char>, lo: usize, hi: usize, key: &Vec<char>) -> (r: bool)
    requires
        lo <= hi <= cs@.len(),
    ensures
        r == key@.is_prefix_of(cs@.subrange(lo as int, hi as int)),
{
    if key.len() > hi - lo {
        return false;
    }
    let mut i: usize = 0;
    while i < key.len()
        invariant
            key@.len() <= hi - lo,
            lo <= hi <= cs@.len(),
            i <= key@.len(),
            forall|j: int| 0 <= j < i ==> key@[j] == cs@[lo + j],
        decreases key@.len() - i,
    {
        if key[i] != cs[lo + i] {
            assert(cs@.subrange(lo as int, hi as int).subrange(0, key@.len() as int)[i as int]
                == cs@[lo + i]);
            return false;
        }
        i = i + 1;
    }
    assert(key@ =~= cs@.subrange(lo as int, hi as int).subrange(0, key@.len() as int));
    true
}

/// The bounds within `cs` of `field_value(cs, key)`.
fn field_range(cs: &Vec<char>, key: &Vec<char>) -> (r: Option<(usize, usize)>)
    ensures
        match field_value(cs@, key@) {
            Some(v) => match r {
                Some((a, b)) => a <= b <= cs@.len() && cs@.subrange(a as int, b as int) == v,
                None => false,
            },
            None => r is None,
        },
{
    let n = cs.len();
    let mut start: usize = 0;
    assert(cs@.subrange(0, n as int) =~= cs@);
    loop
        invariant
            start <= n == cs@.len(),
            find_line(cs@, key@) == find_line(cs@.subrange(start as int, n as int), key@),
        decreases n - start,
    {
        let ghost rest = cs@.subrange(start as int, n as int);
        let e = position_of(cs, start, n, '\n');
        assert(rest.take(e - start) =~= cs@.subrange(start as int, e as int));
        if starts_with(cs, start, e, key) {
            let ghost line = cs@.subrange(start as int, e as int);
            assert(find_line(cs@, key@) == Some(line));
            let k = position_of(cs, start, e, ':');
            if k < e {
                let r = trim_range(cs, k + 1, e);
                assert(line.skip(k - start + 1) =~= cs@.subrange(k + 1, e as int));
                return Some(r);
            } else {
                return None;
            }
        } else if e < n {
            assert(rest.skip(e - start + 1) =~= cs@.subrange(e + 1, n as int));
            start = e + 1;
        } else {
            return None;
        }
    }
}

/// The model name that a processor description gives; empty where it gives
/// none.
pub open spec fn model_name(text: Seq<char>) -> Seq<char> {
    match field_value(text, "model name"@) {
        Some(v) => v,
        None => Seq::empty(),
    }
}

/// The number of physical cores that a processor description gives; zero
/// where it gives none or no number.
pub open spec fn cpu_cores(text: Seq<char>) -> u32 {
    match field_value(text, "cpu cores"@) {
        Some(v) => match parse_u32(v) {
            Some(n) => n,
            None => 0,
        },
        None => 0,
    }
}

/// Whether these values make a usable topology: a name, and at least one
/// logical core per physical core.
pub open spec fn counts_valid(name: Seq<char>, logisch: u32, physisch: u32) -> bool {
    name.len() > 0 && logisch > 0 && physisch > 0 && logisch / physisch > 0
}

/// The topology could not be established: a field is missing or zero.
#[derive(Debug, Clone, Copy, PartialEq, Eq, Structural)]
pub enum TopologyError {
    Unreadable,
}

/// The processor the launcher runs on.
#[derive(Debug)]
pub struct ProzessorSpecs {
    /// Model name of the processor.
    pub name: String,
    /// Number of logical cores (hardware threads).
    pub logisch: u32,
    /// Number of physical cores.
    pub physisch: u32,
    /// Hardware threads per physical core, `logisch / physisch`.
    pub threads: u32,
}

impl ProzessorSpecs {
    /// All fields are usable, and `threads` is derived from the counts.
    pub open spec fn wf(&self) -> bool {
        counts_valid(self.name@, self.logisch, self.physisch) && self.threads == self.logisch
            / self.physisch
    }

    /// The topology with these values, if they make a usable one.
    pub fn from_counts(name: String, logisch: u32, physisch: u32) -> (r: Result<
        ProzessorSpecs,
        TopologyError,
    >)
        ensures
            r is Ok <==> counts_valid(name@, logisch, physisch),
            r matches Ok(p) ==> p.wf() && p.name@ == name@ && p.logisch == logisch && p.physisch
                == physisch,
    {
        let threads: u32 = if physisch > 0 {
            logisch / physisch
        } else {
            0
        };
        if name.unicode_len() == 0 || logisch == 0 || physisch == 0 || threads == 0 {
            Err(TopologyError::Unreadable)
        } else {
            Ok(ProzessorSpecs { name, logisch, physisch, threads })
        }
    }

    /// The topology that a processor description gives, with `logisch`
    /// logical cores.
    pub fn from_cpuinfo(cpuinfo: &str, logisch: u32) -> (r: Result<ProzessorSpecs, TopologyError>)
        ensures
            r is Ok <==> counts_valid(model_name(cpuinfo@), logisch, cpu_cores(cpuinfo@)),
            r matches Ok(p) ==> p.wf() && p.name@ == model_name(cpuinfo@) && p.logisch == logisch
                && p.physisch == cpu_cores(cpuinfo@),
    {
        let cs = chars_of(cpuinfo);
        let name_key = chars_of("model name");
        let cores_key = chars_of("cpu cores");
        let name = match field_range(&cs, &name_key) {
            Some((a, b)) => String::from_str(cpuinfo.substring_char(a, b)),
            None => String::new(),
        };
        let physisch: u32 = match field_range(&cs, &cores_key) {
            Some((a, b)) => match parse_u32_range(&cs, a, b) {
                Some(n) => n,
                None => 0,
            },
            None => 0,
        };
        assert(name@ == model_name(cpuinfo@));
        Self::from_counts(name, logisch, physisch)
    }

    /// Reads the topology of this machine from its processor description;
    /// the number of logical cores is what the affinity facility reports.
    pub fn new(cpuinfo: &str) -> (r: Result<ProzessorSpecs, TopologyError>)
        ensures
            r matches Ok(p) ==> p.wf() && p.name@ == model_name(cpuinfo@) && p.physisch
                == cpu_cores(cpuinfo@),
            model_name(cpuinfo@).len() == 0 || cpu_cores(cpuinfo@) == 0 ==> r is Err,
    {
        let logisch: u32 = match usable_core_ids() {
            Some(ids) => ids.len() as u32,
            None => 0,
        };
        Self::from_cpuinfo(cpuinfo, logisch)
    }
}

} // verus!
