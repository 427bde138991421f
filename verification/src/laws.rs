//! The laws of the run-counting engine and its views: regrouping is lossless,
//! runs are maximal, the unique/duplicated views partition the runs, expansion
//! round-trips through the engine, and deduplication is idempotent.

use vstd::prelude::*;
use vstd::multiset::Multiset;
use crate::line_count::{
    spec_runs, expand_runs, repeat_line, unique_runs, dup_runs, run_lines, wf_runs,
};

verus! {

/// Concatenating every run's line, repeated `count` times and in run order,
/// reconstructs the input exactly: grouping loses nothing.
pub proof fn lemma_runs_reconstruct(lines: Seq<Seq<char>>)
    ensures
        expand_runs(spec_runs(lines)) == lines,
    decreases lines.len(),
{
    if lines.len() > 0 {
        lemma_runs_reconstruct(lines.drop_last());
        let prev = spec_runs(lines.drop_last());
        let l = lines.last();
        if prev.len() > 0 && prev.last().1 == l {
            let updated = prev.update(prev.len() - 1, ((prev.last().0 + 1) as nat, l));
            assert(updated.drop_last() =~= prev.drop_last());
            assert(repeat_line((prev.last().0 + 1) as nat, l) =~= repeat_line(
                prev.last().0,
                l,
            ).push(l));
            assert(expand_runs(updated) =~= expand_runs(prev).push(l));
        } else {
            let pushed = prev.push((1nat, l));
            assert(pushed.drop_last() =~= prev);
            assert(repeat_line(1nat, l) =~= Seq::<Seq<char>>::empty().push(l));
            assert(expand_runs(pushed) =~= expand_runs(prev).push(l));
        }
        assert(lines =~= lines.drop_last().push(l));
    }
}

/// The engine's runs are well formed: every count is at least 1 and adjacent
/// runs never share a representative line, so every run is maximal.
pub proof fn lemma_runs_wf(lines: Seq<Seq<char>>)
    ensures
        wf_runs(spec_runs(lines)),
    decreases lines.len(),
{
    if lines.len() > 0 {
        lemma_runs_wf(lines.drop_last());
        let prev = spec_runs(lines.drop_last());
        let l = lines.last();
        let rs = spec_runs(lines);
        if prev.len() > 0 && prev.last().1 == l {
            assert forall|i: int| 0 <= i < rs.len() implies (#[trigger] rs[i]).0 >= 1 by {
                if i < rs.len() - 1 {
                    assert(rs[i] == prev[i]);
                }
            }
            assert forall|i: int| 0 <= i < rs.len() - 1 implies (#[trigger] rs[i]).1 != rs[i
                + 1].1 by {
                assert(rs[i].1 == prev[i].1);
                assert(rs[i + 1].1 == prev[i + 1].1);
            }
        } else {
            assert forall|i: int| 0 <= i < rs.len() implies (#[trigger] rs[i]).0 >= 1 by {
                if i < rs.len() - 1 {
                    assert(rs[i] == prev[i]);
                }
            }
            assert forall|i: int| 0 <= i < rs.len() - 1 implies (#[trigger] rs[i]).1 != rs[i
                + 1].1 by {
                assert(rs[i] == prev[i]);
                if i + 1 < rs.len() - 1 {
                    assert(rs[i + 1] == prev[i + 1]);
                }
            }
        }
    }
}

/// The unique view and the duplicated view partition the grouped runs of any
/// input: together they have every run exactly once (as multisets), their
/// lengths add up to the whole, and each view keeps the runs' original
/// relative order (each is a filter of the run sequence).
pub proof fn lemma_views_partition(lines: Seq<Seq<char>>)
    ensures
        unique_runs(spec_runs(lines)).len() + dup_runs(spec_runs(lines)).len()
            == spec_runs(lines).len(),
        unique_runs(spec_runs(lines)).to_multiset().add(
            dup_runs(spec_runs(lines)).to_multiset(),
        ) == spec_runs(lines).to_multiset(),
        forall|i: int|
            0 <= i < unique_runs(spec_runs(lines)).len() ==> (#[trigger] unique_runs(
                spec_runs(lines),
            )[i]).0 == 1,
        forall|i: int|
            0 <= i < dup_runs(spec_runs(lines)).len() ==> (#[trigger] dup_runs(
                spec_runs(lines),
            )[i]).0 > 1,
{
    lemma_runs_wf(lines);
    lemma_filter_partition(spec_runs(lines));
}

/// Filtering a run sequence whose counts are all positive by count == 1 and
/// by count > 1 splits it into two disjoint order-preserving parts.
proof fn lemma_filter_partition(rs: Seq<(nat, Seq<char>)>)
    requires
        forall|i: int| 0 <= i < rs.len() ==> (#[trigger] rs[i]).0 >= 1,
    ensures
        unique_runs(rs).len() + dup_runs(rs).len() == rs.len(),
        unique_runs(rs).to_multiset().add(dup_runs(rs).to_multiset()) == rs.to_multiset(),
        forall|i: int|
            0 <= i < unique_runs(rs).len() ==> (#[trigger] unique_runs(rs)[i]).0 == 1,
        forall|i: int| 0 <= i < dup_runs(rs).len() ==> (#[trigger] dup_runs(rs)[i]).0 > 1,
    decreases rs.len(),
{
    broadcast use vstd::seq_lib::group_to_multiset_ensures;
    broadcast use vstd::multiset::group_multiset_axioms;
    broadcast use vstd::multiset::group_multiset_properties;
    broadcast use Seq::lemma_filter_push;
    broadcast use Seq::lemma_filter_pred;

    if rs.len() == 0 {
        reveal(Seq::filter);
        assert(rs.to_multiset() =~= Multiset::<(nat, Seq<char>)>::empty());
        assert(unique_runs(rs).to_multiset().add(dup_runs(rs).to_multiset())
            =~= rs.to_multiset());
    } else {
        let front = rs.drop_last();
        let r = rs.last();
        assert forall|i: int| 0 <= i < front.len() implies (#[trigger] front[i]).0 >= 1 by {
            assert(front[i] == rs[i]);
        }
        lemma_filter_partition(front);
        assert(rs =~= front.push(r));
        let u = unique_runs(front).to_multiset();
        let d = dup_runs(front).to_multiset();
        if r.0 == 1 {
            assert(unique_runs(rs).to_multiset() =~= u.insert(r));
            assert(dup_runs(rs) == dup_runs(front));
            assert(u.insert(r).add(d) =~= u.add(d).insert(r));
        } else {
            assert(r.0 > 1);
            assert(dup_runs(rs).to_multiset() =~= d.insert(r));
            assert(unique_runs(rs) == unique_runs(front));
            assert(u.add(d.insert(r)) =~= u.add(d).insert(r));
        }
        assert(rs.to_multiset() =~= front.to_multiset().insert(r));
    }
}

/// Appending `c` copies of a line that does not continue the last run adds a
/// single new run of length `c`.
proof fn lemma_runs_append_repeat(xs: Seq<Seq<char>>, c: nat, l: Seq<char>)
    requires
        c >= 1,
        spec_runs(xs).len() == 0 || spec_runs(xs).last().1 != l,
    ensures
        spec_runs(xs + repeat_line(c, l)) == spec_runs(xs).push((c, l)),
    decreases c,
{
    if c == 1 {
        assert(xs + repeat_line(1nat, l) =~= xs.push(l));
        assert(xs.push(l).drop_last() =~= xs);
    } else {
        lemma_runs_append_repeat(xs, (c - 1) as nat, l);
        let ys = xs + repeat_line((c - 1) as nat, l);
        assert(xs + repeat_line(c, l) =~= ys.push(l));
        assert(ys.push(l).drop_last() =~= ys);
        let prev = spec_runs(ys);
        assert(prev.last() == (((c - 1) as nat, l)));
        assert(prev.update(prev.len() - 1, ((prev.last().0 + 1) as nat, l)) =~= spec_runs(
            xs,
        ).push((c, l)));
    }
}

/// A well-formed run sequence is the engine's canonical form: expanding it
/// back into lines and regrouping recovers exactly the same runs.
pub proof fn lemma_runs_canonical(rs: Seq<(nat, Seq<char>)>)
    requires
        wf_runs(rs),
    ensures
        spec_runs(expand_runs(rs)) == rs,
    decreases rs.len(),
{
    if rs.len() > 0 {
        let front = rs.drop_last();
        let r = rs.last();
        assert(wf_runs(front)) by {
            assert forall|i: int| 0 <= i < front.len() implies (#[trigger] front[i]).0
                >= 1 by {
                assert(front[i] == rs[i]);
            }
            assert forall|i: int| 0 <= i < front.len() - 1 implies (#[trigger] front[i]).1
                != front[i + 1].1 by {
                assert(front[i] == rs[i]);
                assert(front[i + 1] == rs[i + 1]);
            }
        }
        lemma_runs_canonical(front);
        if front.len() > 0 {
            assert(front.last() == rs[rs.len() - 2]);
            assert(rs[rs.len() - 2].1 != rs[rs.len() - 1].1);
        }
        assert(r.0 >= 1);
        lemma_runs_append_repeat(expand_runs(front), r.0, r.1);
        assert(front.push(r) =~= rs);
    }
}

/// Expanding the duplicated runs and regrouping them recovers exactly the
/// duplicated runs, provided no two of them share a representative line once
/// the unique runs between them are gone (otherwise the regrouping merges
/// them into one longer run).
pub proof fn lemma_all_dups_regroup(lines: Seq<Seq<char>>)
    requires
        forall|i: int|
            0 <= i < dup_runs(spec_runs(lines)).len() - 1 ==> (#[trigger] dup_runs(
                spec_runs(lines),
            )[i]).1 != dup_runs(spec_runs(lines))[i + 1].1,
    ensures
        spec_runs(expand_runs(dup_runs(spec_runs(lines)))) == dup_runs(spec_runs(lines)),
{
    broadcast use Seq::lemma_filter_pred;

    lemma_runs_wf(lines);
    let ds = dup_runs(spec_runs(lines));
    assert forall|i: int| 0 <= i < ds.len() implies (#[trigger] ds[i]).0 >= 1 by {
        assert(ds[i].0 > 1);
    }
    lemma_runs_canonical(ds);
}

/// Lines with no adjacent duplicates group into runs of length 1, one per line.
proof fn lemma_distinct_lines_runs(ls: Seq<Seq<char>>)
    requires
        forall|i: int| 0 <= i < ls.len() - 1 ==> #[trigger] ls[i] != ls[i + 1],
    ensures
        spec_runs(ls) == ls.map_values(|l: Seq<char>| (1nat, l)),
    decreases ls.len(),
{
    if ls.len() == 0 {
        assert(spec_runs(ls) =~= ls.map_values(|l: Seq<char>| (1nat, l)));
    } else {
        let front = ls.drop_last();
        assert forall|i: int| 0 <= i < front.len() - 1 implies #[trigger] front[i] != front[i
            + 1] by {
            assert(front[i] == ls[i]);
            assert(front[i + 1] == ls[i + 1]);
        }
        lemma_distinct_lines_runs(front);
        let prev = spec_runs(front);
        if prev.len() > 0 {
            assert(prev.last().1 == front[front.len() - 1]);
            assert(front[front.len() - 1] == ls[ls.len() - 2]);
            assert(ls[ls.len() - 2] != ls[ls.len() - 1]);
        }
        assert(prev.push((1nat, ls.last())) =~= ls.map_values(|l: Seq<char>| (1nat, l)));
    }
}

/// Deduplication is idempotent: the deduped view's lines have no adjacent
/// duplicates left, so running them through the engine again yields one run
/// of length 1 per line and the deduped view of that output is unchanged.
pub proof fn lemma_deduped_idempotent(lines: Seq<Seq<char>>)
    ensures
        spec_runs(run_lines(spec_runs(lines))) == spec_runs(lines).map_values(
            |r: (nat, Seq<char>)| (1nat, r.1),
        ),
        run_lines(spec_runs(run_lines(spec_runs(lines)))) == run_lines(spec_runs(lines)),
{
    lemma_runs_wf(lines);
    let rs = spec_runs(lines);
    let reps = run_lines(rs);
    assert forall|i: int| 0 <= i < reps.len() - 1 implies #[trigger] reps[i] != reps[i
        + 1] by {
        assert(reps[i] == rs[i].1);
        assert(reps[i + 1] == rs[i + 1].1);
    }
    lemma_distinct_lines_runs(reps);
    assert(reps.map_values(|l: Seq<char>| (1nat, l)) =~= rs.map_values(
        |r: (nat, Seq<char>)| (1nat, r.1),
    ));
    assert(run_lines(reps.map_values(|l: Seq<char>| (1nat, l))) =~= reps);
}

} // verus!
