//! Line-oriented deduplication filter: collapses maximal runs of adjacent
//! equal lines into (count, line) pairs and offers four views over them.

use vstd::prelude::*;

pub mod laws;
pub mod line_count;
pub mod options;
pub mod render;

use crate::options::Options;

verus! {

/// The mathematical view of a sequence of lines: each line as its character sequence.
pub open spec fn lines_view(ls: Seq<String>) -> Seq<Seq<char>> {
    ls.map_values(|l: String| l@)
}

/// The output lines the filter owes for a given configuration and input:
/// the input grouped into runs, one of the four views applied, and each
/// surviving item rendered either with its count or as the bare line.
pub open spec fn spec_output(options: Options, lines: Seq<Seq<char>>) -> Seq<Seq<char>> {
    let rs = line_count::spec_runs(lines);
    if options.all_duplicated {
        line_count::expand_runs(line_count::dup_runs(rs))
    } else {
        let sel = if options.duplicated {
            line_count::dup_runs(rs)
        } else if options.unique {
            line_count::unique_runs(rs)
        } else {
            rs
        };
        if options.count {
            sel.map_values(|r: (nat, Seq<char>)| render::spec_counted(r.0, r.1))
        } else {
            sel.map_values(|r: (nat, Seq<char>)| r.1)
        }
    }
}

/// One invocation of the filter over an already-read input.
pub struct Command {
    pub options: Options,
}

impl Command {
    /// Group the input lines into runs, apply the configured view, and render
    /// each output item; the caller does all reading and writing.
    #[verifier::loop_isolation(false)]
    pub fn run(&self, lines: Vec<String>) -> (out: Vec<String>)
        requires
            !(self.options.count && self.options.all_duplicated),
        ensures
            lines_view(out@) == spec_output(self.options, lines_view(lines@)),
    {
        let counts = line_count::OrderedLineCount::from_lines(&lines);
        if self.options.all_duplicated {
            counts.all_dups()
        } else {
            let with_counts: Vec<(usize, String)> = if self.options.duplicated {
                counts.only_dups()
            } else if self.options.unique {
                counts.only_unique()
            } else {
                counts.deduped()
            };
            let ghost sel = line_count::runs_view(with_counts@);
            let mut out: Vec<String> = Vec::new();
            let mut i: usize = 0;
            if self.options.count {
                while i < with_counts.len()
                    invariant
                        i <= with_counts.len(),
                        out@.len() == i,
                        forall|j: int|
                            0 <= j < i ==> (#[trigger] out@[j])@ == render::spec_counted(
                                sel[j].0,
                                sel[j].1,
                            ),
                    decreases with_counts.len() - i,
                {
                    let c: usize = with_counts[i].0;
                    let rendered = render::counted_line(c, &with_counts[i].1);
                    proof {
                        assert(sel[i as int] == ((with_counts@[i as int].0 as nat,
                        with_counts@[i as int].1@)));
                    }
                    out.push(rendered);
                    i = i + 1;
                }
            } else {
                while i < with_counts.len()
                    invariant
                        i <= with_counts.len(),
                        out@.len() == i,
                        forall|j: int| 0 <= j < i ==> (#[trigger] out@[j])@ == sel[j].1,
                    decreases with_counts.len() - i,
                {
                    let l: String = with_counts[i].1.clone();
                    proof {
                        assert(sel[i as int] == ((with_counts@[i as int].0 as nat,
                        with_counts@[i as int].1@)));
                    }
                    out.push(l);
                    i = i + 1;
                }
            }
            proof {
                assert(lines_view(out@) =~= spec_output(
                    self.options,
                    lines_view(lines@),
                ));
            }
            out
        }
    }
}

impl From<Options> for Command {
    fn from(options: Options) -> (r: Command) {
        Command { options }
    }
}

impl vstd::std_specs::convert::FromSpecImpl<Options> for Command {
    open spec fn obeys_from_spec() -> bool {
        true
    }

    open spec fn from_spec(options: Options) -> Command {
        Command { options }
    }
}

/// Empty input produces empty output under every view configuration.
pub proof fn lemma_empty_input(options: Options)
    ensures
        spec_output(options, Seq::empty()) == Seq::<Seq<char>>::empty(),
{
    reveal(Seq::filter);
    let rs = line_count::spec_runs(Seq::empty());
    assert(rs =~= Seq::<(nat, Seq<char>)>::empty());
    assert(line_count::dup_runs(rs) == rs.filter(|r: (nat, Seq<char>)| r.0 > 1));
    assert(line_count::unique_runs(rs) == rs.filter(|r: (nat, Seq<char>)| r.0 == 1));
    assert(rs.map_values(|r: (nat, Seq<char>)| render::spec_counted(r.0, r.1))
        =~= Seq::<Seq<char>>::empty());
    assert(rs.map_values(|r: (nat, Seq<char>)| r.1) =~= Seq::<Seq<char>>::empty());
}

} // verus!
