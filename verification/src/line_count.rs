//! The run-counting engine: groups maximal runs of adjacent equal lines into
//! (count, line) pairs, and offers four views over the grouped runs.

use vstd::prelude::*;
use crate::lines_view;

verus! {

/// The runs of a line sequence, built up line by line: a new line either
/// extends the last run (when it equals that run's line) or starts a run of
/// length 1.
pub open spec fn spec_runs(lines: Seq<Seq<char>>) -> Seq<(nat, Seq<char>)>
    decreases lines.len(),
{
    if lines.len() == 0 {
        Seq::empty()
    } else {
        let prev = spec_runs(lines.drop_last());
        let l = lines.last();
        if prev.len() > 0 && prev.last().1 == l {
            prev.update(prev.len() - 1, ((prev.last().0 + 1) as nat, l))
        } else {
            prev.push((1nat, l))
        }
    }
}

/// The mathematical view of a vector of (count, line) pairs.
pub open spec fn runs_view(rs: Seq<(usize, String)>) -> Seq<(nat, Seq<char>)> {
    rs.map_values(|r: (usize, String)| (r.0 as nat, r.1@))
}

/// The representative line of each run, in order.
pub open spec fn run_lines(rs: Seq<(nat, Seq<char>)>) -> Seq<Seq<char>> {
    rs.map_values(|r: (nat, Seq<char>)| r.1)
}

/// The runs of length exactly 1, in order.
pub open spec fn unique_runs(rs: Seq<(nat, Seq<char>)>) -> Seq<(nat, Seq<char>)> {
    rs.filter(|r: (nat, Seq<char>)| r.0 == 1)
}

/// The runs of length greater than 1, in order.
pub open spec fn dup_runs(rs: Seq<(nat, Seq<char>)>) -> Seq<(nat, Seq<char>)> {
    rs.filter(|r: (nat, Seq<char>)| r.0 > 1)
}

/// `c` copies of the line `l`.
pub open spec fn repeat_line(c: nat, l: Seq<char>) -> Seq<Seq<char>> {
    Seq::new(c, |i: int| l)
}

/// Every run written back out as its `count` occurrences, in order.
pub open spec fn expand_runs(rs: Seq<(nat, Seq<char>)>) -> Seq<Seq<char>>
    decreases rs.len(),
{
    if rs.len() == 0 {
        Seq::empty()
    } else {
        expand_runs(rs.drop_last()) + repeat_line(rs.last().0, rs.last().1)
    }
}

/// Well-formed run sequences: every count is at least 1, and no two adjacent
/// runs share a representative line (each run is maximal).
pub open spec fn wf_runs(rs: Seq<(nat, Seq<char>)>) -> bool {
    &&& forall|i: int| 0 <= i < rs.len() ==> (#[trigger] rs[i]).0 >= 1
    &&& forall|i: int| 0 <= i < rs.len() - 1 ==> (#[trigger] rs[i]).1 != rs[i + 1].1
}

/// Grouped runs of adjacent equal lines, in input order.
pub struct OrderedLineCount {
    runs: Vec<(usize, String)>,
}

impl View for OrderedLineCount {
    type V = Seq<(nat, Seq<char>)>;

    closed spec fn view(&self) -> Seq<(nat, Seq<char>)> {
        runs_view(self.runs@)
    }
}

impl OrderedLineCount {
    /// Group the input into maximal runs of adjacent equal lines, one forward
    /// pass with a single buffered comparison line.
    #[verifier::loop_isolation(false)]
    pub fn from_lines(lines: &Vec<String>) -> (r: Self)
        ensures
            r@ == spec_runs(lines_view(lines@)),
    {
        let ghost lv = lines_view(lines@);
        let mut runs: Vec<(usize, String)> = Vec::new();
        let mut i: usize = 0;
        while i < lines.len()
            invariant
                i <= lines.len(),
                runs_view(runs@) == spec_runs(lv.take(i as int)),
                i < lines.len() && runs@.len() > 0 ==> runs@.last().1@ != lv[i as int],
            decreases lines.len() - i,
        {
            let ghost i_start: int = i as int;
            let current: String = lines[i].clone();
            let mut count: usize = 1;
            proof {
                assert(lv.take(i + 1) =~= lv.take(i as int).push(lv[i as int]));
                assert(lv.take(i + 1).drop_last() =~= lv.take(i as int));
                assert(spec_runs(lv.take(i + 1)) =~= runs_view(runs@).push(
                    (1nat, current@),
                ));
            }
            i = i + 1;
            while i < lines.len() && lines[i] == current
                invariant
                    i_start < i,
                    1 <= count <= i <= lines.len(),
                    spec_runs(lv.take(i as int)) == runs_view(runs@).push(
                        (count as nat, current@),
                    ),
                decreases lines.len() - i,
            {
                proof {
                    assert(lv.take(i + 1) =~= lv.take(i as int).push(lv[i as int]));
                    assert(lv.take(i + 1).drop_last() =~= lv.take(i as int));
                    let prev = spec_runs(lv.take(i as int));
                    assert(prev.update(prev.len() - 1, ((count + 1) as nat, current@))
                        =~= runs_view(runs@).push(((count + 1) as nat, current@)));
                }
                count = count + 1;
                i = i + 1;
            }
            let ghost old_runs = runs@;
            runs.push((count, current));
            proof {
                assert(runs_view(runs@) =~= runs_view(old_runs).push(
                    (count as nat, current@),
                ));
            }
        }
        proof {
            assert(lv.take(lines.len() as int) =~= lv);
        }
        OrderedLineCount { runs }
    }

    /// Pass every run through unchanged: one (count, line) pair per run.
    pub fn deduped(self) -> (r: Vec<(usize, String)>)
        ensures
            runs_view(r@) == self@,
    {
        self.runs
    }

    /// Keep only the runs of length exactly 1, in order.
    #[verifier::loop_isolation(false)]
    pub fn only_unique(self) -> (r: Vec<(usize, String)>)
        ensures
            runs_view(r@) == unique_runs(self@),
    {
        let runs = self.runs;
        let mut out: Vec<(usize, String)> = Vec::new();
        let mut i: usize = 0;
        while i < runs.len()
            invariant
                i <= runs.len(),
                runs_view(out@) == unique_runs(runs_view(runs@.take(i as int))),
            decreases runs.len() - i,
        {
            let ghost old_out = out@;
            let c: usize = runs[i].0;
            if c == 1 {
                let l: String = runs[i].1.clone();
                out.push((c, l));
            }
            proof {
                broadcast use Seq::lemma_filter_push;

                assert(runs@.take(i + 1) =~= runs@.take(i as int).push(runs@[i as int]));
                assert(runs_view(runs@.take(i + 1)) =~= runs_view(
                    runs@.take(i as int),
                ).push((c as nat, runs@[i as int].1@)));
                if c == 1 {
                    assert(runs_view(out@) =~= runs_view(old_out).push(
                        (c as nat, runs@[i as int].1@),
                    ));
                }
            }
            i = i + 1;
        }
        proof {
            assert(runs@.take(runs.len() as int) =~= runs@);
        }
        out
    }

    /// Keep only the runs of length greater than 1, in order.
    #[verifier::loop_isolation(false)]
    pub fn only_dups(self) -> (r: Vec<(usize, String)>)
        ensures
            runs_view(r@) == dup_runs(self@),
    {
        let runs = self.runs;
        let mut out: Vec<(usize, String)> = Vec::new();
        let mut i: usize = 0;
        while i < runs.len()
            invariant
                i <= runs.len(),
                runs_view(out@) == dup_runs(runs_view(runs@.take(i as int))),
            decreases runs.len() - i,
        {
            let ghost old_out = out@;
            let c: usize = runs[i].0;
            if c > 1 {
                let l: String = runs[i].1.clone();
                out.push((c, l));
            }
            proof {
                broadcast use Seq::lemma_filter_push;

                assert(runs@.take(i + 1) =~= runs@.take(i as int).push(runs@[i as int]));
                assert(runs_view(runs@.take(i + 1)) =~= runs_view(
                    runs@.take(i as int),
                ).push((c as nat, runs@[i as int].1@)));
                if c > 1 {
                    assert(runs_view(out@) =~= runs_view(old_out).push(
                        (c as nat, runs@[i as int].1@),
                    ));
                }
            }
            i = i + 1;
        }
        proof {
            assert(runs@.take(runs.len() as int) =~= runs@);
        }
        out
    }

    /// Expand every run of length greater than 1 back into its `count`
    /// occurrences, dropping the counts.
    #[verifier::loop_isolation(false)]
    pub fn all_dups(self) -> (r: Vec<String>)
        ensures
            lines_view(r@) == expand_runs(dup_runs(self@)),
    {
        let dups = self.only_dups();
        let ghost dv = runs_view(dups@);
        let mut out: Vec<String> = Vec::new();
        let mut i: usize = 0;
        while i < dups.len()
            invariant
                i <= dups.len(),
                dv == runs_view(dups@),
                lines_view(out@) == expand_runs(dv.take(i as int)),
            decreases dups.len() - i,
        {
            let c: usize = dups[i].0;
            proof {
                assert(expand_runs(dv.take(i as int)) + repeat_line(0, dv[i as int].1)
                    =~= expand_runs(dv.take(i as int)));
            }
            let mut j: usize = 0;
            while j < c
                invariant
                    j <= c,
                    c == dv[i as int].0,
                    lines_view(out@) == expand_runs(dv.take(i as int)) + repeat_line(
                        j as nat,
                        dv[i as int].1,
                    ),
                decreases c - j,
            {
                let ghost old_out = out@;
                let l: String = dups[i].1.clone();
                out.push(l);
                proof {
                    assert(lines_view(out@) =~= lines_view(old_out).push(dv[i as int].1));
                    assert(expand_runs(dv.take(i as int)) + repeat_line(
                        (j + 1) as nat,
                        dv[i as int].1,
                    ) =~= (expand_runs(dv.take(i as int)) + repeat_line(
                        j as nat,
                        dv[i as int].1,
                    )).push(dv[i as int].1));
                }
                j = j + 1;
            }
            proof {
                assert(dv.take(i + 1) =~= dv.take(i as int).push(dv[i as int]));
                assert(dv.take(i + 1).drop_last() =~= dv.take(i as int));
                assert(expand_runs(dv.take(i + 1)) == expand_runs(dv.take(i as int))
                    + repeat_line(dv[i as int].0, dv[i as int].1));
            }
            i = i + 1;
        }
        proof {
            assert(dv.take(dups.len() as int) =~= dv);
        }
        out
    }
}

} // verus!
