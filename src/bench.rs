//! The benchmark's side of a run: the argument vector it is called with,
//! the tokens of what it prints, and the header of the log.

use vstd::prelude::*;
use crate::settings::Settings;
use crate::text::{chars_of, decimal, piece, push_decimal, split, split_ranges, trim, trim_range};
use crate::topology::ProzessorSpecs;

verus! {

/// The values of `v` in decimal, separated by commas.
pub open spec fn joined(v: Seq<u32>) -> Seq<char>
    decreases v.len(),
{
    if v.len() == 0 {
        Seq::empty()
    } else if v.len() == 1 {
        decimal(v[0] as nat)
    } else {
        joined(v.drop_last()) + seq![','] + decimal(v.last() as nat)
    }
}

/// `[v0,v1,...]`: how a list is handed to the benchmark.
pub open spec fn bracketed(v: Seq<u32>) -> Seq<char> {
    seq!['['] + joined(v) + seq![']']
}

/// Renders `v` as `[v0,v1,...]`.
pub fn render_list(v: &Vec<u32>) -> (r: String)
    ensures
        r@ == bracketed(v@),
{
    proof {
        reveal_strlit("[");
        reveal_strlit(",");
        reveal_strlit("]");
    }
    let mut s = String::from_str("[");
    let mut i: usize = 0;
    assert(v@.take(0) =~= Seq::<u32>::empty());
    assert(s@ =~= seq!['['] + joined(v@.take(0)));
    while i < v.len()
        invariant
            i <= v@.len(),
            s@ == seq!['['] + joined(v@.take(i as int)),
        decreases v@.len() - i,
    {
        let ghost before = s@;
        if i > 0 {
            s.append(",");
        }
        push_decimal(&mut s, v[i]);
        proof {
            reveal_strlit(",");
            let t = v@.take(i + 1);
            assert(t.drop_last() =~= v@.take(i as int));
            assert(t.last() == v@[i as int]);
            assert(s@ =~= seq!['['] + joined(t));
        }
        i = i + 1;
    }
    proof {
        reveal_strlit("]");
    }
    s.append("]");
    assert(v@.take(i as int) =~= v@);
    assert(s@ =~= bracketed(v@));
    s
}

/// The arguments of the benchmark: the cores, the input sizes and the
/// thread count.
pub fn benchmark_args(einstellungen: &Settings) -> (r: Vec<String>)
    ensures
        r@.len() == 3,
        r@[0]@ == bracketed(einstellungen.kerne@),
        r@[1]@ == bracketed(einstellungen.n@),
        r@[2]@ == decimal(einstellungen.t as nat),
{
    let mut t = String::new();
    push_decimal(&mut t, einstellungen.t);
    assert(t@ =~= decimal(einstellungen.t as nat));
    let mut r: Vec<String> = Vec::new();
    r.push(render_list(&einstellungen.kerne));
    r.push(render_list(&einstellungen.n));
    r.push(t);
    r
}

/// The path the benchmark is started by: an absolute path as it stands,
/// another one from the working directory.
pub open spec fn command_path_of(programm: Seq<char>) -> Seq<char> {
    if programm.len() > 0 && programm[0] == '/' {
        programm
    } else {
        seq!['.', '/'] + programm
    }
}

/// The path the benchmark is started by.
pub fn command_path(programm: &str) -> (r: String)
    ensures
        r@ == command_path_of(programm@),
{
    proof {
        reveal_strlit("./");
    }
    let cs = chars_of(programm);
    if cs.len() > 0 && cs[0] == '/' {
        String::from_str(programm)
    } else {
        let mut s = String::from_str("./");
        s.append(programm);
        assert(s@ =~= command_path_of(programm@));
        s
    }
}

/// The measurements the benchmark printed, as text: the output trimmed, cut
/// at each comma, and each piece trimmed.
pub open spec fn output_tokens(text: Seq<char>) -> Seq<Seq<char>> {
    let parts = split(trim(text), ',');
    Seq::new(parts.len(), |k: int| trim(parts[k]))
}

/// Cuts the benchmark's output into its comma-separated tokens.
pub fn split_output(text: &str) -> (r: Vec<String>)
    ensures
        r@.len() == output_tokens(text@).len(),
        forall|k: int| 0 <= k < r@.len() ==> (#[trigger] r@[k])@ == output_tokens(text@)[k],
{
    let cs = chars_of(text);
    let (lo, hi) = trim_range(&cs, 0, cs.len());
    assert(cs@.subrange(0, cs@.len() as int) =~= text@);
    let parts = split_ranges(&cs, lo, hi, ',');
    let ghost ps = split(trim(text@), ',');
    let mut r: Vec<String> = Vec::new();
    let mut k: usize = 0;
    while k < parts.len()
        invariant
            cs@ == text@,
            lo <= hi <= cs@.len(),
            ps == split(cs@.subrange(lo as int, hi as int), ','),
            ps == split(trim(text@), ','),
            parts@.len() == ps.len(),
            forall|j: int|
                0 <= j < parts@.len() ==> lo <= (#[trigger] parts@[j]).0 <= parts@[j].1 <= hi
                    && piece(cs@, parts@[j]) == ps[j],
            k <= parts@.len(),
            r@.len() == k,
            forall|j: int| 0 <= j < k ==> (#[trigger] r@[j])@ == output_tokens(text@)[j],
        decreases parts@.len() - k,
    {
        let (a, b) = parts[k];
        let (ta, tb) = trim_range(&cs, a, b);
        r.push(String::from_str(text.substring_char(ta, tb)));
        k = k + 1;
    }
    r
}

/// The first line of the log: model name, physical cores, logical cores and
/// threads per core, written one after another.
pub open spec fn header_of(p: &ProzessorSpecs) -> Seq<char> {
    p.name@ + decimal(p.physisch as nat) + decimal(p.logisch as nat) + decimal(p.threads as nat)
}

/// Renders the first line of the log.
pub fn header_line(prozessor: &ProzessorSpecs) -> (r: String)
    ensures
        r@ == header_of(prozessor),
{
    let mut s = prozessor.name.clone();
    push_decimal(&mut s, prozessor.physisch);
    push_decimal(&mut s, prozessor.logisch);
    push_decimal(&mut s, prozessor.threads);
    s
}

} // verus!
