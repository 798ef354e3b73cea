//! The regressions report does not depend on the order in which the history lists its
//! runs, as long as the runs of one command have different time stamps and the
//! regressed commands slowed down by different ratios.

use vstd::prelude::*;
use crate::history::{
    ever_run, first_runs, law_first_runs_distinct, runs_of, seen_before, total_duration,
    HistoryEntry,
};
use crate::ranking::{first_at_most, in_rank_order, law_rank_order_sorts, Ranked};
use crate::regressions::{
    is_regression, latest_run, law_regressions_commands_distinct, regression_row_command,
    regression_row_of, regression_rows_from, regressions_table, RegressionRow,
};

verus! {

broadcast use vstd::multiset::group_multiset_axioms;

proof fn lemma_runs_counts(s: Seq<HistoryEntry>, c: Seq<char>, e: HistoryEntry)
    ensures
        runs_of(s, c).to_multiset().count(e) == if e.command@ == c {
            s.to_multiset().count(e)
        } else {
            0
        },
    decreases s.len(),
{
    if s.len() == 0 {
        vstd::seq_lib::to_multiset_len(runs_of(s, c));
        vstd::seq_lib::to_multiset_len(s);
        assert(runs_of(s, c).to_multiset().count(e) <= runs_of(s, c).to_multiset().len());
        assert(s.to_multiset().count(e) <= s.to_multiset().len());
    } else {
        let t = s.drop_last();
        let x = s.last();
        lemma_runs_counts(t, c, e);
        assert(t.push(x) =~= s);
        vstd::seq_lib::to_multiset_build(t, x);
        assert(s.to_multiset().count(e) == t.to_multiset().count(e) + if x == e {
            1int
        } else {
            0int
        });
        if x.command@ == c {
            vstd::seq_lib::to_multiset_build(runs_of(t, c), x);
            assert(runs_of(s, c) == runs_of(t, c).push(x));
        } else {
            assert(runs_of(s, c) == runs_of(t, c));
            if x == e {
                assert(e.command@ != c);
            }
        }
    }
}

/// Reordering the history reorders the runs of each command.
proof fn lemma_runs_reordered(s: Seq<HistoryEntry>, t: Seq<HistoryEntry>, c: Seq<char>)
    requires
        s.to_multiset() == t.to_multiset(),
    ensures
        runs_of(s, c).to_multiset() == runs_of(t, c).to_multiset(),
{
    assert forall|e: HistoryEntry| #[trigger] runs_of(s, c).to_multiset().count(e) == runs_of(
        t,
        c,
    ).to_multiset().count(e) by {
        lemma_runs_counts(s, c, e);
        lemma_runs_counts(t, c, e);
    }
    assert(runs_of(s, c).to_multiset() =~= runs_of(t, c).to_multiset());
}

proof fn lemma_total_without(b: Seq<HistoryEntry>, j: int)
    requires
        0 <= j < b.len(),
    ensures
        total_duration(b) == total_duration(b.remove(j)) + b[j].duration_ms,
    decreases b.len(),
{
    if j == b.len() - 1 {
        assert(b.remove(j) =~= b.drop_last());
    } else {
        lemma_total_without(b.drop_last(), j);
        assert(b.remove(j).drop_last() =~= b.drop_last().remove(j));
        assert(b.remove(j).last() == b.last());
    }
}

/// The total duration of some runs does not depend on their order.
proof fn lemma_total_reordered(a: Seq<HistoryEntry>, b: Seq<HistoryEntry>)
    requires
        a.to_multiset() == b.to_multiset(),
    ensures
        total_duration(a) == total_duration(b),
        a.len() == b.len(),
    decreases a.len(),
{
    vstd::seq_lib::to_multiset_len(a);
    vstd::seq_lib::to_multiset_len(b);
    if a.len() > 0 {
        let x = a.last();
        let d = a.drop_last();
        assert(d.push(x) =~= a);
        vstd::seq_lib::to_multiset_build(d, x);
        vstd::seq_lib::to_multiset_contains(b, x);
        assert(b.to_multiset().count(x) > 0);
        let j = choose|j: int| 0 <= j < b.len() && b[j] == x;
        vstd::seq_lib::to_multiset_remove(b, j);
        assert(d.to_multiset() =~= b.remove(j).to_multiset());
        lemma_total_reordered(d, b.remove(j));
        lemma_total_without(b, j);
    }
}

proof fn lemma_latest_is_greatest(r: Seq<HistoryEntry>)
    requires
        r.len() > 0,
    ensures
        r.contains(latest_run(r)),
        forall|k: int| 0 <= k < r.len() ==> (#[trigger] r[k]).ts_epoch_secs <= latest_run(r).ts_epoch_secs,
    decreases r.len(),
{
    if r.len() > 1 {
        lemma_latest_is_greatest(r.drop_last());
        let p = latest_run(r.drop_last());
        let j = choose|j: int| 0 <= j < r.len() - 1 && r.drop_last()[j] == p;
        assert(r[j] == p);
        assert forall|k: int| 0 <= k < r.len() implies (#[trigger] r[k]).ts_epoch_secs <= latest_run(r).ts_epoch_secs by {
            if k < r.len() - 1 {
                assert(r[k] == r.drop_last()[k]);
            }
        }
        if r.last().ts_epoch_secs >= p.ts_epoch_secs {
            assert(r[r.len() - 1] == r.last());
        }
    } else {
        assert(r[0] == latest_run(r));
    }
}

/// No two runs of one command in `s` share a time stamp (unless they are the same run).
pub open spec fn time_stamps_distinct(s: Seq<HistoryEntry>) -> bool {
    forall|x: HistoryEntry, y: HistoryEntry|
        #![trigger s.contains(x), s.contains(y)]
        s.contains(x) && s.contains(y) && x.command@ == y.command@ && x.ts_epoch_secs
            == y.ts_epoch_secs ==> x == y
}

/// What the regressions report makes of one command: its name, the duration of its latest
/// run, the total duration and the number of its other runs.
pub open spec fn command_figures(s: Seq<HistoryEntry>, c: Seq<char>) -> (Seq<char>, u64, u128, usize) {
    let runs = runs_of(s, c);
    let latest = latest_run(runs);
    (c, latest.duration_ms, (total_duration(runs) - latest.duration_ms) as u128, (runs.len() - 1) as usize)
}

/// Reordering the history changes neither which commands were run nor what the
/// regressions report makes of each, when the runs of a command have different time
/// stamps.
pub proof fn law_command_figures_ignore_order(s: Seq<HistoryEntry>, t: Seq<HistoryEntry>, c: Seq<char>)
    requires
        s.to_multiset() == t.to_multiset(),
        time_stamps_distinct(s),
    ensures
        command_figures(s, c) == command_figures(t, c),
        runs_of(s, c).len() == runs_of(t, c).len(),
{
    let rs = runs_of(s, c);
    let rt = runs_of(t, c);
    lemma_runs_reordered(s, t, c);
    lemma_total_reordered(rs, rt);
    if rs.len() > 0 {
        lemma_latest_is_greatest(rs);
        lemma_latest_is_greatest(rt);
        let ls = latest_run(rs);
        let lt = latest_run(rt);
        vstd::seq_lib::to_multiset_contains(rs, ls);
        vstd::seq_lib::to_multiset_contains(rs, lt);
        vstd::seq_lib::to_multiset_contains(rt, ls);
        vstd::seq_lib::to_multiset_contains(rt, lt);
        let i = choose|i: int| 0 <= i < rs.len() && rs[i] == lt;
        let j = choose|j: int| 0 <= j < rt.len() && rt[j] == ls;
        assert(rs[i].ts_epoch_secs <= ls.ts_epoch_secs);
        assert(rt[j].ts_epoch_secs <= lt.ts_epoch_secs);
        lemma_runs_counts(s, c, ls);
        lemma_runs_counts(s, c, lt);
        vstd::seq_lib::to_multiset_contains(s, ls);
        vstd::seq_lib::to_multiset_contains(s, lt);
        assert(ls == lt);
    } else {
        assert(rs =~= rt);
    }
}

/// The figures a regression row shows: command, latest duration, baseline total and
/// baseline size.
pub open spec fn row_figures(r: RegressionRow) -> (Seq<char>, u64, u128, usize) {
    (r.command@, r.last_ms, r.baseline_total_ms, r.baseline_runs)
}

/// Whether figures describe a regression (the same test as `is_regression`).
pub open spec fn figures_regress(f: (Seq<char>, u64, u128, usize)) -> bool {
    &&& f.3 >= 2
    &&& f.2 > 0
    &&& 5 * (f.3 * f.1) > 6 * f.2
}

/// Whether the figures `f` show a larger slowdown than `g` (the same order as the one on
/// regression rows).
pub open spec fn figures_outrank(f: (Seq<char>, u64, u128, usize), g: (Seq<char>, u64, u128, usize)) -> bool {
    &&& f.2 > 0
    &&& g.2 > 0
    &&& (f.3 * f.1) * g.2 > (g.3 * g.1) * f.2
}

/// The regressed commands of `s` slowed down by pairwise different ratios.
pub open spec fn slowdowns_distinct(s: Seq<HistoryEntry>) -> bool {
    forall|c: Seq<char>, d: Seq<char>|
        #![trigger command_figures(s, c), command_figures(s, d)]
        c != d && ever_run(s, c) && ever_run(s, d) && figures_regress(command_figures(s, c))
            && figures_regress(command_figures(s, d)) ==> (figures_outrank(
            command_figures(s, c),
            command_figures(s, d),
        ) || figures_outrank(command_figures(s, d), command_figures(s, c)))
}

proof fn lemma_first_runs_cover(s: Seq<HistoryEntry>, c: Seq<char>)
    requires
        ever_run(s, c),
    ensures
        exists|a: int| 0 <= a < first_runs(s).len() && s[#[trigger] first_runs(s)[a]].command@ == c,
    decreases s.len(),
{
    let t = s.drop_last();
    law_first_runs_distinct(t);
    if ever_run(t, c) {
        lemma_first_runs_cover(t, c);
        let a = choose|a: int| 0 <= a < first_runs(t).len() && t[#[trigger] first_runs(t)[a]].command@ == c;
        assert(s[first_runs(t)[a]] == t[first_runs(t)[a]]);
        if !seen_before(s, s.len() - 1) {
            assert(first_runs(s)[a] == first_runs(t)[a]);
        }
    } else {
        let k = choose|k: int| 0 <= k < s.len() && (#[trigger] s[k]).command@ == c;
        if k < s.len() - 1 {
            assert(t[k] == s[k]);
        }
        assert(s[s.len() - 1].command@ == c);
        if seen_before(s, s.len() - 1) {
            let m = choose|m: int| 0 <= m < s.len() - 1 && (#[trigger] s[m]).command@ == s[s.len() - 1].command@;
            assert(t[m] == s[m]);
        } else {
            assert(first_runs(s) == first_runs(t).push(s.len() - 1));
            assert(first_runs(s)[first_runs(t).len() as int] == s.len() - 1);
            assert(s[first_runs(s)[first_runs(t).len() as int]].command@ == c);
        }
    }
}

proof fn lemma_rows_members(s: Seq<HistoryEntry>, positions: Seq<int>, x: (Seq<char>, u64, u128, usize))
    requires
        forall|a: int| 0 <= a < positions.len() ==> 0 <= #[trigger] positions[a] < s.len(),
    ensures
        regression_rows_from(s, positions).map_values(|r: RegressionRow| row_figures(r)).contains(x)
            <==> exists|a: int|
            0 <= a < positions.len() && x == command_figures(s, s[#[trigger] positions[a]].command@)
                && figures_regress(x),
    decreases positions.len(),
{
    let rows = regression_rows_from(s, positions);
    let v = rows.map_values(|r: RegressionRow| row_figures(r));
    if positions.len() > 0 {
        let p = positions.drop_last();
        assert forall|a: int| 0 <= a < p.len() implies 0 <= #[trigger] p[a] < s.len() by {
            assert(p[a] == positions[a]);
        }
        lemma_rows_members(s, p, x);
        let earlier = regression_rows_from(s, p);
        let ev = earlier.map_values(|r: RegressionRow| row_figures(r));
        let last = positions.len() - 1;
        let row = regression_row_of(s, positions[last]);
        assert(row_figures(row) == command_figures(s, s[positions[last]].command@));
        if is_regression(row) {
            assert(v =~= ev.push(row_figures(row)));
        } else {
            assert(v =~= ev);
        }
        if v.contains(x) {
            let i = choose|i: int| 0 <= i < v.len() && v[i] == x;
            if i < ev.len() {
                assert(ev[i] == x);
                let a = choose|a: int|
                    0 <= a < p.len() && x == command_figures(s, s[#[trigger] p[a]].command@)
                        && figures_regress(x);
                assert(positions[a] == p[a]);
            } else {
                assert(x == row_figures(row));
            }
        }
        if exists|a: int|
            0 <= a < positions.len() && x == command_figures(s, s[#[trigger] positions[a]].command@)
                && figures_regress(x) {
            let a = choose|a: int|
                0 <= a < positions.len() && x == command_figures(s, s[#[trigger] positions[a]].command@)
                    && figures_regress(x);
            if a < last {
                assert(p[a] == positions[a]);
                assert(ev.contains(x));
                let i = choose|i: int| 0 <= i < ev.len() && ev[i] == x;
                assert(v[i] == x);
            } else {
                assert(v[v.len() - 1] == x);
            }
        }
    }
}

/// The figures of the regressions of `s`, in report order.
pub open spec fn report_figures(s: Seq<HistoryEntry>) -> Seq<(Seq<char>, u64, u128, usize)> {
    in_rank_order(regression_rows_from(s, first_runs(s))).map_values(|r: RegressionRow| row_figures(r))
}

proof fn lemma_report_members(s: Seq<HistoryEntry>, x: (Seq<char>, u64, u128, usize))
    ensures
        report_figures(s).contains(x) <==> (ever_run(s, x.0) && x == command_figures(s, x.0)
            && figures_regress(x)),
{
    let rows = regression_rows_from(s, first_runs(s));
    let sorted = in_rank_order(rows);
    law_rank_order_sorts(rows);
    law_first_runs_distinct(s);
    lemma_rows_members(s, first_runs(s), x);
    let v = rows.map_values(|r: RegressionRow| row_figures(r));
    let w = sorted.map_values(|r: RegressionRow| row_figures(r));
    if w.contains(x) {
        let i = choose|i: int| 0 <= i < w.len() && w[i] == x;
        vstd::seq_lib::to_multiset_contains(sorted, sorted[i]);
        vstd::seq_lib::to_multiset_contains(rows, sorted[i]);
        assert(sorted.contains(sorted[i]));
        let j = choose|j: int| 0 <= j < rows.len() && rows[j] == sorted[i];
        assert(v[j] == x);
        let a = choose|a: int|
            0 <= a < first_runs(s).len() && x == command_figures(s, s[#[trigger] first_runs(s)[a]].command@)
                && figures_regress(x);
        let q = first_runs(s)[a];
        assert(s[q].command@ == x.0);
        assert(ever_run(s, x.0));
    }
    if ever_run(s, x.0) && x == command_figures(s, x.0) && figures_regress(x) {
        lemma_first_runs_cover(s, x.0);
        let a = choose|a: int| 0 <= a < first_runs(s).len() && s[#[trigger] first_runs(s)[a]].command@ == x.0;
        assert(v.contains(x));
        let j = choose|j: int| 0 <= j < v.len() && v[j] == x;
        vstd::seq_lib::to_multiset_contains(rows, rows[j]);
        vstd::seq_lib::to_multiset_contains(sorted, rows[j]);
        assert(rows.contains(rows[j]));
        let i = choose|i: int| 0 <= i < sorted.len() && sorted[i] == rows[j];
        assert(w[i] == x);
    }
}

proof fn lemma_ordered_unique(
    a: Seq<(Seq<char>, u64, u128, usize)>,
    b: Seq<(Seq<char>, u64, u128, usize)>,
)
    requires
        forall|x: (Seq<char>, u64, u128, usize)| a.contains(x) <==> b.contains(x),
        forall|i: int, j: int|
            0 <= i < a.len() && 0 <= j < a.len() && i != j ==> (#[trigger] a[i]).0 != (
            #[trigger] a[j]).0,
        forall|i: int, j: int|
            0 <= i < b.len() && 0 <= j < b.len() && i != j ==> (#[trigger] b[i]).0 != (
            #[trigger] b[j]).0,
        forall|i: int, j: int| 0 <= i < j < a.len() ==> !figures_outrank(#[trigger] a[j], #[trigger] a[i]),
        forall|i: int, j: int| 0 <= i < j < b.len() ==> !figures_outrank(#[trigger] b[j], #[trigger] b[i]),
        forall|i: int, j: int|
            0 <= i < a.len() && 0 <= j < a.len() && (#[trigger] a[i]).0 != (#[trigger] a[j]).0
                ==> figures_outrank(a[i], a[j]) || figures_outrank(a[j], a[i]),
    ensures
        a == b,
    decreases a.len() + b.len(),
{
    if a.len() == 0 {
        if b.len() > 0 {
            assert(b.contains(b[0]));
        }
        assert(b =~= a);
    } else {
        assert(a.contains(a[0]));
        let j = choose|j: int| 0 <= j < b.len() && b[j] == a[0];
        assert(b.contains(b[0]));
        let i = choose|i: int| 0 <= i < a.len() && a[i] == b[0];
        if a[0] != b[0] {
            assert(i != 0);
            assert(a[i].0 != a[0].0);
            if figures_outrank(a[0], a[i]) {
                assert(j != 0);
                assert(!figures_outrank(b[j], b[0]));
            } else {
                assert(!figures_outrank(a[i], a[0]));
            }
        }
        let a2 = a.drop_first();
        let b2 = b.drop_first();
        assert forall|x: (Seq<char>, u64, u128, usize)| a2.contains(x) <==> b2.contains(x) by {
            if a2.contains(x) {
                let k = choose|k: int| 0 <= k < a2.len() && a2[k] == x;
                assert(a[k + 1] == x);
                assert(a[k + 1].0 != a[0].0);
                assert(b.contains(x));
                let m = choose|m: int| 0 <= m < b.len() && b[m] == x;
                assert(m != 0);
                assert(b2[m - 1] == x);
            }
            if b2.contains(x) {
                let k = choose|k: int| 0 <= k < b2.len() && b2[k] == x;
                assert(b[k + 1] == x);
                assert(b[k + 1].0 != b[0].0);
                assert(a.contains(x));
                let m = choose|m: int| 0 <= m < a.len() && a[m] == x;
                assert(m != 0);
                assert(a2[m - 1] == x);
            }
        }
        assert forall|p: int, q: int|
            0 <= p < a2.len() && 0 <= q < a2.len() && p != q implies (#[trigger] a2[p]).0 != (
            #[trigger] a2[q]).0 by {
            assert(a2[p] == a[p + 1] && a2[q] == a[q + 1]);
        }
        assert forall|p: int, q: int|
            0 <= p < b2.len() && 0 <= q < b2.len() && p != q implies (#[trigger] b2[p]).0 != (
            #[trigger] b2[q]).0 by {
            assert(b2[p] == b[p + 1] && b2[q] == b[q + 1]);
        }
        assert forall|p: int, q: int| 0 <= p < q < a2.len() implies !figures_outrank(
            #[trigger] a2[q],
            #[trigger] a2[p],
        ) by {
            assert(a2[p] == a[p + 1] && a2[q] == a[q + 1]);
        }
        assert forall|p: int, q: int| 0 <= p < q < b2.len() implies !figures_outrank(
            #[trigger] b2[q],
            #[trigger] b2[p],
        ) by {
            assert(b2[p] == b[p + 1] && b2[q] == b[q + 1]);
        }
        assert forall|p: int, q: int|
            0 <= p < a2.len() && 0 <= q < a2.len() && (#[trigger] a2[p]).0 != (#[trigger] a2[q]).0
                implies figures_outrank(a2[p], a2[q]) || figures_outrank(a2[q], a2[p]) by {
            assert(a2[p] == a[p + 1] && a2[q] == a[q + 1]);
        }
        lemma_ordered_unique(a2, b2);
        assert(a =~= b) by {
            assert forall|k: int| 0 <= k < a.len() implies a[k] == b[k] by {
                if k > 0 {
                    assert(a[k] == a2[k - 1] && b[k] == b2[k - 1]);
                }
            }
        }
    }
}

proof fn lemma_ever_run_has_runs(s: Seq<HistoryEntry>, c: Seq<char>)
    ensures
        ever_run(s, c) <==> runs_of(s, c).len() > 0,
    decreases s.len(),
{
    if s.len() > 0 {
        let t = s.drop_last();
        lemma_ever_run_has_runs(t, c);
        if ever_run(t, c) {
            let k = choose|k: int| 0 <= k < t.len() && (#[trigger] t[k]).command@ == c;
            assert(s[k] == t[k]);
        }
        if ever_run(s, c) {
            let k = choose|k: int| 0 <= k < s.len() && (#[trigger] s[k]).command@ == c;
            if k < t.len() {
                assert(t[k] == s[k]);
            }
        }
        if s.last().command@ == c {
            assert(s[s.len() - 1].command@ == c);
        }
    }
}

proof fn lemma_report_shape(s: Seq<HistoryEntry>)
    ensures
        forall|i: int, j: int|
            0 <= i < report_figures(s).len() && 0 <= j < report_figures(s).len() && i != j
                ==> (#[trigger] report_figures(s)[i]).0 != (#[trigger] report_figures(s)[j]).0,
        forall|i: int, j: int|
            0 <= i < j < report_figures(s).len() ==> !figures_outrank(
                #[trigger] report_figures(s)[j],
                #[trigger] report_figures(s)[i],
            ),
{
    let rows = regression_rows_from(s, first_runs(s));
    let sorted = in_rank_order(rows);
    law_rank_order_sorts(rows);
    law_regressions_commands_distinct(s, rows.len());
    assert(first_at_most(sorted, rows.len()) == sorted);
    let w = report_figures(s);
    assert forall|i: int, j: int| 0 <= i < w.len() && 0 <= j < w.len() && i != j implies (
    #[trigger] w[i]).0 != (#[trigger] w[j]).0 by {
        assert(regression_row_command(sorted[i]) != regression_row_command(sorted[j]));
    }
    assert forall|i: int, j: int| 0 <= i < j < w.len() implies !figures_outrank(
        #[trigger] w[j],
        #[trigger] w[i],
    ) by {
        assert(!sorted[j].outranks(sorted[i]));
    }
}

/// Reordering the history leaves the regressions report as it was (each row showing the
/// same figures), provided the runs of each command have different time stamps and the
/// regressed commands slowed down by different ratios.
pub proof fn law_regressions_ignore_history_order(
    s: Seq<HistoryEntry>,
    t: Seq<HistoryEntry>,
    limit: nat,
)
    requires
        s.to_multiset() == t.to_multiset(),
        time_stamps_distinct(s),
        slowdowns_distinct(s),
    ensures
        regressions_table(s, limit).map_values(|r: RegressionRow| row_figures(r))
            == regressions_table(t, limit).map_values(|r: RegressionRow| row_figures(r)),
{
    let a = report_figures(s);
    let b = report_figures(t);
    assert forall|x: (Seq<char>, u64, u128, usize)| a.contains(x) <==> b.contains(x) by {
        lemma_report_members(s, x);
        lemma_report_members(t, x);
        law_command_figures_ignore_order(s, t, x.0);
        lemma_ever_run_has_runs(s, x.0);
        lemma_ever_run_has_runs(t, x.0);
    }
    lemma_report_shape(s);
    lemma_report_shape(t);
    assert forall|i: int, j: int|
        0 <= i < a.len() && 0 <= j < a.len() && (#[trigger] a[i]).0 != (#[trigger] a[j]).0
            implies figures_outrank(a[i], a[j]) || figures_outrank(a[j], a[i]) by {
        assert(a.contains(a[i]));
        assert(a.contains(a[j]));
        lemma_report_members(s, a[i]);
        lemma_report_members(s, a[j]);
        assert(command_figures(s, a[i].0) == a[i]);
        assert(command_figures(s, a[j].0) == a[j]);
    }
    lemma_ordered_unique(a, b);
    assert(regressions_table(s, limit).map_values(|r: RegressionRow| row_figures(r))
        =~= first_at_most(a, limit));
    assert(regressions_table(t, limit).map_values(|r: RegressionRow| row_figures(r))
        =~= first_at_most(b, limit));
}

proof fn lemma_runs_bounded(s: Seq<HistoryEntry>, c: Seq<char>)
    ensures
        runs_of(s, c).len() <= s.len(),
        total_duration(runs_of(s, c)) <= runs_of(s, c).len() * 0xffff_ffff_ffff_ffff,
    decreases s.len(),
{
    if s.len() > 0 {
        lemma_runs_bounded(s.drop_last(), c);
        let prev = runs_of(s.drop_last(), c);
        if s.last().command@ == c {
            assert(prev.push(s.last()).drop_last() =~= prev);
        }
    }
}

proof fn lemma_first_runs_bounded(s: Seq<HistoryEntry>)
    ensures
        first_runs(s).len() <= s.len(),
    decreases s.len(),
{
    if s.len() > 0 {
        lemma_first_runs_bounded(s.drop_last());
    }
}

proof fn lemma_rows_bounded(s: Seq<HistoryEntry>, positions: Seq<int>)
    ensures
        regression_rows_from(s, positions).len() <= positions.len(),
    decreases positions.len(),
{
    if positions.len() > 0 {
        lemma_rows_bounded(s, positions.drop_last());
    }
}

/// The regressions report misses no regression: when `limit` is at least the number of
/// runs, every command with at least three runs whose latest run took more than 20%
/// longer than the average of its other runs (five times the latest duration times the
/// number of other runs exceeds six times their total, which is positive) has a row, and
/// that row shows the latest duration, the number of other runs and their total. No upper
/// bound on the number of runs applies.
pub proof fn law_regressions_complete(s: Seq<HistoryEntry>, c: Seq<char>, limit: nat)
    requires
        s.len() <= usize::MAX,
        limit >= s.len(),
        runs_of(s, c).len() >= 3,
        total_duration(runs_of(s, c)) - latest_run(runs_of(s, c)).duration_ms > 0,
        5 * ((runs_of(s, c).len() - 1) * latest_run(runs_of(s, c)).duration_ms) > 6 * (
        total_duration(runs_of(s, c)) - latest_run(runs_of(s, c)).duration_ms),
    ensures
        exists|k: int|
            0 <= k < regressions_table(s, limit).len() && (#[trigger] regressions_table(
                s,
                limit,
            )[k]).command@ == c && regressions_table(s, limit)[k].last_ms == latest_run(
                runs_of(s, c),
            ).duration_ms && regressions_table(s, limit)[k].baseline_runs == runs_of(s, c).len()
                - 1 && regressions_table(s, limit)[k].baseline_total_ms == total_duration(
                runs_of(s, c),
            ) - latest_run(runs_of(s, c)).duration_ms,
{
    let runs = runs_of(s, c);
    let last = latest_run(runs).duration_ms;
    let total = total_duration(runs);
    lemma_ever_run_has_runs(s, c);
    lemma_runs_bounded(s, c);
    assert(runs.len() * 0xffff_ffff_ffff_ffff <= 0xffff_ffff_ffff_ffff * 0xffff_ffff_ffff_ffffu128)
        by (nonlinear_arith)
        requires
            runs.len() <= 0xffff_ffff_ffff_ffff,
    ;
    let x = command_figures(s, c);
    assert(x.3 == runs.len() - 1);
    assert(x.2 == total - last);
    assert(x.1 == last);
    assert(figures_regress(x));
    lemma_report_members(s, x);
    let w = report_figures(s);
    assert(w.contains(x));
    let i = choose|i: int| 0 <= i < w.len() && w[i] == x;
    let rows = regression_rows_from(s, first_runs(s));
    let sorted = in_rank_order(rows);
    law_rank_order_sorts(rows);
    lemma_rows_bounded(s, first_runs(s));
    lemma_first_runs_bounded(s);
    assert(regressions_table(s, limit) == sorted);
    assert(row_figures(sorted[i]) == x);
}

} // verus!
