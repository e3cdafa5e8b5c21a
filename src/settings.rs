//! The run's settings, and the grammar of the core-id and input-size
//! arguments: a bracketed list `[a,b,c]` for both, a range `a-b` for core ids.

use vstd::prelude::*;
use crate::text::{
    chars_of, parse_u32, parse_u32_range, parse_u32_str, piece, split, split_ranges, trim,
    trim_range,
};
use crate::topology::ProzessorSpecs;

verus! {

/// What lies between the brackets of `[...]`; None where `s` is not
/// bracketed.
pub open spec fn bracket_interior(s: Seq<char>) -> Option<Seq<char>> {
    if s.len() >= 2 && s[0] == '[' && s.last() == ']' {
        Some(s.subrange(1, s.len() - 1))
    } else {
        None
    }
}

/// The values of the tokens, each trimmed and read as an unsigned number, in
/// order; None where one of them is no number.
pub open spec fn parse_tokens(ts: Seq<Seq<char>>) -> Option<Seq<u32>>
    decreases ts.len(),
{
    if ts.len() == 0 {
        Some(Seq::empty())
    } else {
        match (parse_tokens(ts.drop_last()), parse_u32(trim(ts.last()))) {
            (Some(v), Some(x)) => Some(v.push(x)),
            _ => None,
        }
    }
}

/// The values of a bracketed, comma-separated list, in the order written.
pub open spec fn list_values(s: Seq<char>) -> Option<Seq<u32>> {
    match bracket_interior(s) {
        Some(inner) => parse_tokens(split(inner, ',')),
        None => None,
    }
}

/// The two bounds of a range `a-b`: exactly one `-`, a number on each side.
pub open spec fn range_bounds(s: Seq<char>) -> Option<(u32, u32)> {
    let parts = split(s, '-');
    if bracket_interior(s) is None && parts.len() == 2 {
        match (parse_u32(trim(parts[0])), parse_u32(trim(parts[1]))) {
            (Some(a), Some(b)) => Some((a, b)),
            _ => None,
        }
    } else {
        None
    }
}

pub open spec fn all_below(v: Seq<u32>, bound: u32) -> bool {
    forall|i: int| 0 <= i < v.len() ==> #[trigger] v[i] < bound
}

pub open spec fn strictly_ascending(v: Seq<u32>) -> bool {
    forall|i: int, j: int| 0 <= i < j < v.len() ==> v[i] < v[j]
}

/// Two ascending sequences without duplicates that hold the same values are
/// equal. So the list that an argument yields depends only on the set of
/// values written, not on their order or repetition.
pub proof fn lemma_ascending_unique(v: Seq<u32>, w: Seq<u32>)
    requires
        strictly_ascending(v),
        strictly_ascending(w),
        v.to_set() == w.to_set(),
    ensures
        v == w,
    decreases v.len(),
{
    if v.len() == 0 {
        if w.len() > 0 {
            assert(w.to_set().contains(w[0]));
            assert(v.to_set().contains(w[0]));
        }
        assert(v =~= w);
    } else {
        assert(v.to_set().contains(v[0]));
        assert(w.contains(v[0]));
        assert(w.len() > 0);
        assert(w.to_set().contains(w[0]));
        assert(v.contains(w[0]));
        let i = choose|i: int| 0 <= i < v.len() && v[i] == w[0];
        let j = choose|j: int| 0 <= j < w.len() && w[j] == v[0];
        assert(v[0] <= v[i]);
        assert(w[0] <= w[j]);
        assert(v[0] == w[0]);
        let v1 = v.drop_first();
        let w1 = w.drop_first();
        assert forall|x: u32| v1.to_set().contains(x) == w1.to_set().contains(x) by {
            if v1.contains(x) {
                let k = choose|k: int| 0 <= k < v1.len() && v1[k] == x;
                assert(v[k + 1] == x);
                assert(v.to_set().contains(x));
                assert(w.contains(x));
                let m = choose|m: int| 0 <= m < w.len() && w[m] == x;
                assert(m != 0);
                assert(w1[m - 1] == x);
            }
            if w1.contains(x) {
                let k = choose|k: int| 0 <= k < w1.len() && w1[k] == x;
                assert(w[k + 1] == x);
                assert(w.to_set().contains(x));
                assert(v.contains(x));
                let m = choose|m: int| 0 <= m < v.len() && v[m] == x;
                assert(m != 0);
                assert(v1[m - 1] == x);
            }
        }
        assert(v1.to_set() =~= w1.to_set());
        lemma_ascending_unique(v1, w1);
        assert forall|k: int| 0 <= k < v.len() implies v[k] == w[k] by {
            if k > 0 {
                assert(v[k] == v1[k - 1]);
                assert(w[k] == w1[k - 1]);
            }
        }
        assert(v =~= w);
    }
}

/// Whether `s` is an accepted core-id argument on a machine with `logisch`
/// logical cores.
pub open spec fn cores_valid(s: Seq<char>, logisch: u32) -> bool {
    match list_values(s) {
        Some(vals) => all_below(vals, logisch),
        None => match range_bounds(s) {
            Some((a, b)) => a < logisch && b < logisch && a <= b,
            None => false,
        },
    }
}

/// The core ids that an accepted core-id argument names.
pub open spec fn core_set(s: Seq<char>) -> Set<u32> {
    match list_values(s) {
        Some(vals) => vals.to_set(),
        None => match range_bounds(s) {
            Some((a, b)) => Set::new(|x: u32| a <= x <= b),
            None => Set::empty(),
        },
    }
}

/// The values of the tokens of `split(cs[lo..hi], ',')`, in order.
fn parse_list(cs: &Vec<char>, lo: usize, hi: usize) -> (r: Option<Vec<u32>>)
    requires
        lo <= hi <= cs@.len(),
    ensures
        match parse_tokens(split(cs@.subrange(lo as int, hi as int), ',')) {
            Some(vals) => r matches Some(v) && v@ == vals,
            None => r is None,
        },
{
    let parts = split_ranges(cs, lo, hi, ',');
    let ghost ps = split(cs@.subrange(lo as int, hi as int), ',');
    let mut v: Vec<u32> = Vec::new();
    let mut ok = true;
    let mut k: usize = 0;
    assert(ps.take(0) =~= Seq::<Seq<char>>::empty());
    while k < parts.len()
        invariant
            lo <= hi <= cs@.len(),
            ps == split(cs@.subrange(lo as int, hi as int), ','),
            parts@.len() == ps.len(),
            forall|j: int|
                0 <= j < parts@.len() ==> lo <= (#[trigger] parts@[j]).0 <= parts@[j].1 <= hi
                    && piece(cs@, parts@[j]) == ps[j],
            k <= parts@.len(),
            ok ==> parse_tokens(ps.take(k as int)) == Some(v@),
            !ok ==> parse_tokens(ps.take(k as int)) is None,
        decreases parts@.len() - k,
    {
        let (a, b) = parts[k];
        let (ta, tb) = trim_range(cs, a, b);
        let x = parse_u32_range(cs, ta, tb);
        proof {
            assert(ps.take(k + 1).drop_last() =~= ps.take(k as int));
            assert(ps.take(k + 1).last() == ps[k as int]);
        }
        match x {
            Some(x) => {
                if ok {
                    v.push(x);
                }
            },
            None => {
                ok = false;
            },
        }
        k = k + 1;
    }
    assert(ps.take(k as int) =~= ps);
    if ok {
        Some(v)
    } else {
        None
    }
}

/// Adds `x` to an ascending vector without duplicates, keeping it so.
fn insert_sorted(v: &mut Vec<u32>, x: u32)
    requires
        strictly_ascending(old(v)@),
    ensures
        strictly_ascending(final(v)@),
        final(v)@.to_set() == old(v)@.to_set().insert(x),
{
    let mut p: usize = 0;
    while p < v.len() && v[p] < x
        invariant
            p <= v@.len(),
            forall|i: int| 0 <= i < p ==> v@[i] < x,
        decreases v@.len() - p,
    {
        p = p + 1;
    }
    if p < v.len() && v[p] == x {
        assert(old(v)@.to_set().insert(x) =~= old(v)@.to_set());
        return;
    }
    let ghost before = v@;
    v.insert(p, x);
    assert forall|i: int, j: int| 0 <= i < j < v@.len() implies v@[i] < v@[j] by {
        if j < p {
        } else if j == p {
        } else if i < p {
            assert(v@[j] == before[j - 1]);
        } else if i == p {
            assert(v@[j] == before[j - 1]);
            assert(before[p as int] > x);
        } else {
            assert(v@[j] == before[j - 1]);
            assert(v@[i] == before[i - 1]);
        }
    }
    assert forall|y: u32| v@.to_set().contains(y) == before.to_set().insert(x).contains(y) by {
        if v@.contains(y) {
            let i = choose|i: int| 0 <= i < v@.len() && v@[i] == y;
            if i < p {
                assert(before[i] == y);
            } else if i > p {
                assert(before[i - 1] == y);
            }
        }
        if before.contains(y) {
            let i = choose|i: int| 0 <= i < before.len() && before[i] == y;
            if i < p {
                assert(v@[i] == y);
            } else {
                assert(v@[i + 1] == y);
            }
        }
        if y == x {
            assert(v@[p as int] == x);
        }
    }
    assert(v@.to_set() =~= before.to_set().insert(x));
}

/// The values of `vals` in ascending order, each once.
fn sorted_set_of(vals: &Vec<u32>) -> (r: Vec<u32>)
    ensures
        strictly_ascending(r@),
        r@.to_set() == vals@.to_set(),
{
    let mut r: Vec<u32> = Vec::new();
    let mut i: usize = 0;
    assert(r@.to_set() =~= vals@.take(0).to_set());
    while i < vals.len()
        invariant
            i <= vals@.len(),
            strictly_ascending(r@),
            r@.to_set() == vals@.take(i as int).to_set(),
        decreases vals@.len() - i,
    {
        insert_sorted(&mut r, vals[i]);
        assert(vals@.take(i + 1) =~= vals@.take(i as int).push(vals@[i as int]));
        proof {
            vals@.take(i as int).lemma_push_to_set_commute(vals@[i as int]);
        }
        i = i + 1;
    }
    assert(vals@.take(i as int) =~= vals@);
    r
}

/// Whether every value of `v` is below `bound`.
fn each_below(v: &Vec<u32>, bound: u32) -> (r: bool)
    ensures
        r == all_below(v@, bound),
{
    let mut i: usize = 0;
    while i < v.len()
        invariant
            i <= v@.len(),
            forall|j: int| 0 <= j < i ==> v@[j] < bound,
        decreases v@.len() - i,
    {
        if v[i] >= bound {
            return false;
        }
        i = i + 1;
    }
    true
}

/// The option values found on the command line, before validation.
#[derive(Debug)]
pub struct Arguments {
    /// Path of the benchmark executable.
    pub program: Option<String>,
    /// Whether that path names an existing regular file.
    pub program_is_file: bool,
    /// Core-id argument.
    pub cores: Option<String>,
    /// Input-size argument.
    pub sizes: Option<String>,
    /// Thread count.
    pub threads: Option<String>,
    /// Path of the log file.
    pub log: Option<String>,
    /// Whether the verbose flag was given.
    pub verbose: bool,
}

/// Why the command line does not make a run.
#[derive(Debug, Clone, Copy, PartialEq, Eq, Structural)]
pub enum SettingsError {
    MissingProgram,
    ProgramNotFound,
    MissingCores,
    MalformedCores,
    MissingSizes,
    MalformedSizes,
    MissingThreads,
    MalformedThreads,
    MissingLog,
}

/// The first problem of the command line, checked in the order of the
/// options; None where it makes a run.
pub open spec fn settings_error(args: Arguments, logisch: u32) -> Option<SettingsError> {
    if args.program is None {
        Some(SettingsError::MissingProgram)
    } else if !args.program_is_file {
        Some(SettingsError::ProgramNotFound)
    } else if args.cores is None {
        Some(SettingsError::MissingCores)
    } else if !cores_valid(args.cores->0@, logisch) {
        Some(SettingsError::MalformedCores)
    } else if args.sizes is None {
        Some(SettingsError::MissingSizes)
    } else if list_values(args.sizes->0@) is None {
        Some(SettingsError::MalformedSizes)
    } else if args.threads is None {
        Some(SettingsError::MissingThreads)
    } else if parse_u32(args.threads->0@) is None {
        Some(SettingsError::MalformedThreads)
    } else if args.log is None {
        Some(SettingsError::MissingLog)
    } else {
        None
    }
}

/// The settings of one run.
#[derive(Debug)]
pub struct Settings {
    /// Path of the benchmark executable.
    pub programm: String,
    /// Cores handed to the benchmark, ascending and without duplicates.
    pub kerne: Vec<u32>,
    /// Input sizes for the benchmark, ascending and without duplicates.
    pub n: Vec<u32>,
    /// Number of threads for the benchmark.
    pub t: u32,
    /// Path of the log file.
    pub log: String,
    /// Whether the settings and the invocation are echoed.
    pub flagge: bool,
}

impl Settings {
    /// Validates the command line against the topology.
    pub fn new(args: Arguments, prozessor: &ProzessorSpecs) -> (r: Result<Settings, SettingsError>)
        ensures
            match settings_error(args, prozessor.logisch) {
                Some(e) => r == Err::<Settings, SettingsError>(e),
                None => r matches Ok(s) && s.programm@ == args.program->0@ && strictly_ascending(
                    s.kerne@,
                ) && s.kerne@.to_set() == core_set(args.cores->0@) && all_below(
                    s.kerne@,
                    prozessor.logisch,
                ) && strictly_ascending(s.n@) && s.n@.to_set() == list_values(
                    args.sizes->0@,
                )->0.to_set() && Some(s.t) == parse_u32(args.threads->0@) && s.log@
                    == args.log->0@ && s.flagge == args.verbose,
            },
    {
        let Arguments { program, program_is_file, cores, sizes, threads, log, verbose } = args;
        let programm = match program {
            Some(p) => p,
            None => return Err(SettingsError::MissingProgram),
        };
        if !program_is_file {
            return Err(SettingsError::ProgramNotFound);
        }
        let kerne = match cores {
            Some(b) => match Settings::kern_umwandeln(b.as_str(), prozessor) {
                Ok(k) => k,
                Err(()) => return Err(SettingsError::MalformedCores),
            },
            None => return Err(SettingsError::MissingCores),
        };
        let n = match sizes {
            Some(c) => match Settings::n_umwandeln(c.as_str()) {
                Ok(v) => v,
                Err(()) => return Err(SettingsError::MalformedSizes),
            },
            None => return Err(SettingsError::MissingSizes),
        };
        let t = match threads {
            Some(d) => match parse_u32_str(d.as_str()) {
                Some(t) => t,
                None => return Err(SettingsError::MalformedThreads),
            },
            None => return Err(SettingsError::MissingThreads),
        };
        let log = match log {
            Some(e) => e,
            None => return Err(SettingsError::MissingLog),
        };
        Ok(Settings { programm, kerne, n, t, log, flagge: verbose })
    }

    /// Reads an input-size argument: a bracketed list of unsigned numbers,
    /// returned ascending and without duplicates.
    pub fn n_umwandeln(umwandeln: &str) -> (r: Result<Vec<u32>, ()>)
        ensures
            r is Ok <==> list_values(umwandeln@) is Some,
            r matches Ok(v) ==> strictly_ascending(v@) && v@.to_set() == list_values(
                umwandeln@,
            )->0.to_set(),
    {
        let cs = chars_of(umwandeln);
        let n = cs.len();
        if n >= 2 && cs[0] == '[' && cs[n - 1] == ']' {
            match parse_list(&cs, 1, n - 1) {
                Some(vals) => Ok(sorted_set_of(&vals)),
                None => Err(()),
            }
        } else {
            Err(())
        }
    }

    /// Reads a core-id argument: a bracketed list of ids, or a range `a-b`
    /// with `a <= b`; every id must be below the number of logical cores.
    /// The ids come back ascending and without duplicates.
    pub fn kern_umwandeln(umwandeln: &str, prozessor: &ProzessorSpecs) -> (r: Result<Vec<u32>, ()>)
        ensures
            r is Ok <==> cores_valid(umwandeln@, prozessor.logisch),
            r matches Ok(v) ==> strictly_ascending(v@) && v@.to_set() == core_set(umwandeln@)
                && all_below(v@, prozessor.logisch),
            r matches Ok(v) ==> (range_bounds(umwandeln@) matches Some((a, b)) ==> v@ == Seq::new(
                (b - a + 1) as nat,
                |i: int| (a + i) as u32,
            )),
            list_values(umwandeln@) matches Some(vals) ==> ((exists|i: int|
                0 <= i < vals.len() && vals[i] >= prozessor.logisch) ==> r is Err),
    {
        let cs = chars_of(umwandeln);
        let n = cs.len();
        let logisch = prozessor.logisch;
        if n >= 2 && cs[0] == '[' && cs[n - 1] == ']' {
            match parse_list(&cs, 1, n - 1) {
                Some(vals) => {
                    if each_below(&vals, logisch) {
                        let r = sorted_set_of(&vals);
                        assert forall|i: int| 0 <= i < r@.len() implies r@[i] < logisch by {
                            assert(r@.to_set().contains(r@[i]));
                            assert(vals@.contains(r@[i]));
                        }
                        Ok(r)
                    } else {
                        Err(())
                    }
                },
                None => Err(()),
            }
        } else {
            let parts = split_ranges(&cs, 0, n, '-');
            assert(cs@.subrange(0, n as int) =~= umwandeln@);
            if parts.len() != 2 {
                return Err(());
            }
            let (a0, b0) = parts[0];
            let (a1, b1) = parts[1];
            let (ta0, tb0) = trim_range(&cs, a0, b0);
            let (ta1, tb1) = trim_range(&cs, a1, b1);
            let a = match parse_u32_range(&cs, ta0, tb0) {
                Some(x) => x,
                None => return Err(()),
            };
            let b = match parse_u32_range(&cs, ta1, tb1) {
                Some(x) => x,
                None => return Err(()),
            };
            if !(a < logisch && b < logisch && b >= a) {
                return Err(());
            }
            let mut zahlen: Vec<u32> = Vec::new();
            let mut i: u32 = a;
            while i <= b
                invariant
                    a <= i <= b + 1,
                    b < logisch,
                    zahlen@ == Seq::new((i - a) as nat, |j: int| (a + j) as u32),
                decreases b + 1 - i,
            {
                zahlen.push(i);
                assert(zahlen@ =~= Seq::new((i + 1 - a) as nat, |j: int| (a + j) as u32));
                i = i + 1;
            }
            assert(zahlen@.to_set() =~= Set::new(|x: u32| a <= x <= b)) by {
                assert forall|x: u32| a <= x <= b implies zahlen@.contains(x) by {
                    assert(zahlen@[x - a] == x);
                }
            }
            Ok(zahlen)
        }
    }
}

} // verus!
