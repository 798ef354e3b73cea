//! The regressions report: the commands whose latest run took markedly longer than the
//! average of their earlier runs.

use vstd::prelude::*;
use crate::history::{
    first_run_positions, first_runs, law_first_runs_distinct, runs_of, total_duration,
    HistoryEntry,
};
use crate::ranking::{
    first_at_most, in_rank_order, keys_distinct, law_rank_order_keeps_keys_distinct,
    law_rank_order_sorts, lemma_in_first_at_most, lemma_prefix_keeps_keys_distinct,
    lemma_sorted_member, sort_ranked, Ranked,
};

verus! {

proof fn lemma_quotients_decide(a: int, b: int, c: int, d: int, q1: int, r1: int, q2: int, r2: int)
    requires
        b > 0,
        d > 0,
        a == b * q1 + r1,
        c == d * q2 + r2,
        0 <= r1 < b,
        0 <= r2 < d,
        q1 > q2,
    ensures
        a * d > c * b,
{
    assert(a * d >= q1 * b * d) by (nonlinear_arith)
        requires
            a == b * q1 + r1,
            0 <= r1,
            d > 0,
    ;
    assert(c * b < (q2 + 1) * d * b) by (nonlinear_arith)
        requires
            c == d * q2 + r2,
            r2 < d,
            b > 0,
    ;
    assert((q2 + 1) * d * b <= q1 * b * d) by (nonlinear_arith)
        requires
            q2 + 1 <= q1,
            b > 0,
            d > 0,
    ;
}

proof fn lemma_equal_quotients(a: int, b: int, c: int, d: int, q: int, r1: int, r2: int)
    requires
        a == b * q + r1,
        c == d * q + r2,
    ensures
        a * d - c * b == r1 * d - r2 * b,
{
    assert(a * d - c * b == r1 * d - r2 * b) by (nonlinear_arith)
        requires
            a == b * q + r1,
            c == d * q + r2,
    ;
}

/// Whether the fraction `a / b` is greater than `c / d`, compared exactly.
pub fn fraction_exceeds(a: u128, b: u128, c: u128, d: u128) -> (r: bool)
    requires
        b > 0,
        d > 0,
    ensures
        r == (a * d > c * b),
    decreases b + d,
{
    let q1 = a / b;
    let r1 = a % b;
    let q2 = c / d;
    let r2 = c % d;
    proof {
        vstd::arithmetic::div_mod::lemma_fundamental_div_mod(a as int, b as int);
        vstd::arithmetic::div_mod::lemma_fundamental_div_mod(c as int, d as int);
    }
    if q1 > q2 {
        proof {
            lemma_quotients_decide(a as int, b as int, c as int, d as int, q1 as int, r1 as int, q2 as int, r2 as int);
        }
        return true;
    }
    if q1 < q2 {
        proof {
            lemma_quotients_decide(c as int, d as int, a as int, b as int, q2 as int, r2 as int, q1 as int, r1 as int);
        }
        return false;
    }
    proof {
        lemma_equal_quotients(a as int, b as int, c as int, d as int, q1 as int, r1 as int, r2 as int);
    }
    if r2 == 0 {
        assert((a * d > c * b) <==> r1 > 0) by (nonlinear_arith)
            requires
                d > 0,
                r1 >= 0,
                r2 == 0,
                a * d - c * b == r1 * d - r2 * b,
        ;
        return r1 > 0;
    }
    if r1 == 0 {
        assert(!(a * d > c * b)) by (nonlinear_arith)
            requires
                b > 0,
                r2 > 0,
                r1 == 0,
                a * d - c * b == r1 * d - r2 * b,
        ;
        return false;
    }
    fraction_exceeds(d, r2, b, r1)
}

/// The latest of `runs` (which must not be empty): the one with the greatest time stamp,
/// the one recorded last among those that share it.
pub open spec fn latest_run(runs: Seq<HistoryEntry>) -> HistoryEntry
    decreases runs.len(),
{
    if runs.len() <= 1 {
        runs[0]
    } else if runs.last().ts_epoch_secs >= latest_run(runs.drop_last()).ts_epoch_secs {
        runs.last()
    } else {
        latest_run(runs.drop_last())
    }
}

/// A command whose latest run may be a regression: that run's duration, and the total
/// duration and number of its other runs (the baseline).
#[derive(Debug, PartialEq, Eq)]
pub struct RegressionRow {
    pub command: String,
    pub last_ms: u64,
    pub baseline_total_ms: u128,
    pub baseline_runs: usize,
}

/// `baseline_runs * last_ms`: the latest duration scaled to the size of the baseline.
pub open spec fn scaled_last(row: RegressionRow) -> int {
    row.baseline_runs * row.last_ms
}

/// The latest run took more than 20% longer than the average of the others, of which
/// there are at least two.
pub open spec fn is_regression(row: RegressionRow) -> bool {
    &&& row.baseline_runs >= 2
    &&& row.baseline_total_ms > 0
    &&& 5 * scaled_last(row) > 6 * row.baseline_total_ms
}

/// Regressions go largest slowdown first: the ratio of the latest duration to the
/// baseline average is compared exactly.
impl Ranked for RegressionRow {
    open spec fn outranks(self, other: RegressionRow) -> bool {
        &&& self.baseline_total_ms > 0
        &&& other.baseline_total_ms > 0
        &&& scaled_last(self) * other.baseline_total_ms > scaled_last(other)
            * self.baseline_total_ms
    }

    proof fn lemma_outranks_transitive(a: RegressionRow, b: RegressionRow, c: RegressionRow) {
        let (x, y, z) = (scaled_last(a), scaled_last(b), scaled_last(c));
        let (sa, sb, sc) = (
            a.baseline_total_ms as int,
            b.baseline_total_ms as int,
            c.baseline_total_ms as int,
        );
        assert(x * sc > z * sa) by (nonlinear_arith)
            requires
                sa > 0,
                sb > 0,
                sc > 0,
                x * sb > y * sa,
                y * sc > z * sb,
        {
            assert(x * sb * sc > y * sa * sc);
            assert(y * sc * sa > z * sb * sa);
            assert(sb * (x * sc - z * sa) > 0);
        }
    }

    proof fn lemma_outranks_irreflexive(a: RegressionRow) {
    }

    fn goes_before(&self, other: &RegressionRow) -> (r: bool) {
        if self.baseline_total_ms == 0 || other.baseline_total_ms == 0 {
            return false;
        }
        let mine = scale(self.baseline_runs, self.last_ms);
        let theirs = scale(other.baseline_runs, other.last_ms);
        fraction_exceeds(mine, self.baseline_total_ms, theirs, other.baseline_total_ms)
    }
}

/// `runs * ms`, which always fits in 128 bits.
fn scale(runs: usize, ms: u64) -> (r: u128)
    ensures
        r == runs * ms,
{
    assert(runs * ms <= 0xffff_ffff_ffff_ffff * 0xffff_ffff_ffff_ffffu128) by (nonlinear_arith)
        requires
            runs <= 0xffff_ffff_ffff_ffff,
            ms <= 0xffff_ffff_ffff_ffff,
    ;
    (runs as u128) * (ms as u128)
}

/// The regression row of the command first run at position `i` of `s`.
pub open spec fn regression_row_of(s: Seq<HistoryEntry>, i: int) -> RegressionRow {
    let runs = runs_of(s, s[i].command@);
    let latest = latest_run(runs);
    RegressionRow {
        command: s[i].command,
        last_ms: latest.duration_ms,
        baseline_total_ms: (total_duration(runs) - latest.duration_ms) as u128,
        baseline_runs: (runs.len() - 1) as usize,
    }
}

/// The regression rows of the commands first run at `positions`, in that order, leaving
/// out the commands that did not regress.
pub open spec fn regression_rows_from(s: Seq<HistoryEntry>, positions: Seq<int>) -> Seq<
    RegressionRow,
>
    decreases positions.len(),
{
    if positions.len() == 0 {
        Seq::empty()
    } else if is_regression(regression_row_of(s, positions.last())) {
        regression_rows_from(s, positions.drop_last()).push(regression_row_of(s, positions.last()))
    } else {
        regression_rows_from(s, positions.drop_last())
    }
}

/// The regressions report: the commands whose latest run regressed, largest slowdown
/// first, at most `limit` of them.
pub open spec fn regressions_table(s: Seq<HistoryEntry>, limit: nat) -> Seq<RegressionRow> {
    first_at_most(in_rank_order(regression_rows_from(s, first_runs(s))), limit)
}

proof fn lemma_latest_within_total(runs: Seq<HistoryEntry>)
    requires
        runs.len() > 0,
    ensures
        latest_run(runs).duration_ms <= total_duration(runs),
    decreases runs.len(),
{
    if runs.len() > 1 {
        lemma_latest_within_total(runs.drop_last());
    }
}

proof fn lemma_own_runs_nonempty(s: Seq<HistoryEntry>, i: int)
    requires
        0 <= i < s.len(),
    ensures
        runs_of(s, s[i].command@).len() > 0,
    decreases s.len(),
{
    if i < s.len() - 1 {
        assert(s.drop_last()[i] == s[i]);
        lemma_own_runs_nonempty(s.drop_last(), i);
        if s.last().command@ == s[i].command@ {
            assert(runs_of(s.drop_last(), s[i].command@).push(s.last()).len() > 0);
        }
    }
}

proof fn lemma_twenty_percent(x: int, s: int)
    requires
        x >= 0,
        s >= 0,
    ensures
        (x > s && x - s > s / 5) <==> 5 * x > 6 * s,
{
}

/// For the runs of `command`: how many there are, their total duration, and the duration
/// of the latest of them (0 when there are none).
fn summarize_runs(entries: &Vec<HistoryEntry>, command: &String) -> (r: (usize, u128, u64))
    ensures
        r.0 == runs_of(entries@, command@).len(),
        r.1 == total_duration(runs_of(entries@, command@)),
        r.0 > 0 ==> r.2 == latest_run(runs_of(entries@, command@)).duration_ms,
{
    let n = entries.len();
    let mut count: usize = 0;
    let mut total: u128 = 0;
    let mut latest_ts: u64 = 0;
    let mut latest_ms: u64 = 0;
    let mut i: usize = 0;
    while i < n
        invariant
            n == entries@.len(),
            i <= n,
            count <= i,
            count == runs_of(entries@.take(i as int), command@).len(),
            total == total_duration(runs_of(entries@.take(i as int), command@)),
            total <= count * 0xffff_ffff_ffff_ffff,
            count > 0 ==> latest_ts == latest_run(runs_of(entries@.take(i as int), command@)).ts_epoch_secs,
            count > 0 ==> latest_ms == latest_run(runs_of(entries@.take(i as int), command@)).duration_ms,
        decreases n - i,
    {
        let ghost before = runs_of(entries@.take(i as int), command@);
        assert(entries@.take(i + 1).drop_last() =~= entries@.take(i as int));
        assert(entries@.take(i + 1).last() == entries@[i as int]);
        if entries[i].command == *command {
            let ghost after = before.push(entries@[i as int]);
            assert(runs_of(entries@.take(i + 1), command@) == after);
            assert(after.drop_last() =~= before);
            let d = entries[i].duration_ms;
            assert(total + d <= (count + 1) * 0xffff_ffff_ffff_ffff);
            assert((count + 1) * 0xffff_ffff_ffff_ffff <= 0xffff_ffff_ffff_ffff * 0xffff_ffff_ffff_ffffu128) by (nonlinear_arith)
                requires
                    count + 1 <= 0xffff_ffff_ffff_ffff,
            ;
            total = total + d as u128;
            if count == 0 || entries[i].ts_epoch_secs >= latest_ts {
                latest_ts = entries[i].ts_epoch_secs;
                latest_ms = d;
            }
            count = count + 1;
        }
        i = i + 1;
    }
    assert(entries@.take(n as int) =~= entries@);
    (count, total, latest_ms)
}

/// The regressions report of the history `entries`: each command with at least three runs
/// whose latest run took more than 20% longer than the average of its other runs, largest
/// slowdown first, at most `limit` of them.
pub fn regressions(entries: &Vec<HistoryEntry>, limit: usize) -> (r: Vec<RegressionRow>)
    ensures
        r@ == regressions_table(entries@, limit as nat),
{
    let firsts = first_run_positions(entries);
    let ghost positions = firsts@.map_values(|x: usize| x as int);
    let m = firsts.len();
    let mut rows: Vec<RegressionRow> = Vec::new();
    let mut k: usize = 0;
    while k < m
        invariant
            m == firsts@.len(),
            k <= m,
            positions == firsts@.map_values(|x: usize| x as int),
            positions == first_runs(entries@),
            forall|j: int| 0 <= j < firsts@.len() ==> firsts@[j] < entries@.len(),
            rows@ == regression_rows_from(entries@, positions.take(k as int)),
        decreases m - k,
    {
        let i = firsts[k];
        let ghost row_spec = regression_row_of(entries@, i as int);
        assert(positions.take(k + 1).drop_last() =~= positions.take(k as int));
        assert(positions.take(k + 1).last() == i as int);
        let command = entries[i].command.clone();
        let (count, total, last_ms) = summarize_runs(entries, &command);
        proof {
            let runs = runs_of(entries@, command@);
            lemma_own_runs_nonempty(entries@, i as int);
            if count > 0 {
                lemma_latest_within_total(runs);
            }
        }
        if count >= 3 {
            let baseline_total = total - last_ms as u128;
            let baseline_runs = count - 1;
            let row = RegressionRow {
                command,
                last_ms,
                baseline_total_ms: baseline_total,
                baseline_runs,
            };
            assert(row == row_spec);
            let scaled = scale(baseline_runs, last_ms);
            proof {
                lemma_twenty_percent(scaled as int, baseline_total as int);
            }
            if baseline_total > 0 && scaled > baseline_total && scaled - baseline_total
                > baseline_total / 5 {
                rows.push(row);
            }
        } else {
            assert(!is_regression(row_spec));
        }
        k = k + 1;
    }
    assert(positions.take(m as int) =~= positions);
    let mut sorted = sort_ranked(rows);
    sorted.truncate(limit);
    sorted
}
proof fn lemma_regression_rows_qualify(s: Seq<HistoryEntry>, positions: Seq<int>)
    ensures
        forall|k: int|
            0 <= k < regression_rows_from(s, positions).len() ==> is_regression(
                #[trigger] regression_rows_from(s, positions)[k],
            ),
    decreases positions.len(),
{
    if positions.len() > 0 {
        lemma_regression_rows_qualify(s, positions.drop_last());
        let earlier = regression_rows_from(s, positions.drop_last());
        let rows = regression_rows_from(s, positions);
        assert forall|k: int| 0 <= k < rows.len() implies is_regression(#[trigger] rows[k]) by {
            if k < earlier.len() {
                assert(is_regression(earlier[k]));
            }
        }
    }
}

/// The regressions report shows at most `limit` rows; each is a command with at least
/// three runs whose latest run took more than 20% longer than the average of its other
/// runs; and no row shows a larger slowdown than one above it.
pub proof fn law_regressions_table(s: Seq<HistoryEntry>, limit: nat)
    ensures
        ({
            let t = regressions_table(s, limit);
            &&& t.len() <= limit
            &&& forall|k: int| 0 <= k < t.len() ==> is_regression(#[trigger] t[k])
            &&& forall|i: int, j: int|
                0 <= i < j < t.len() ==> !(#[trigger] t[j]).outranks(#[trigger] t[i])
        }),
{
    let rows = regression_rows_from(s, first_runs(s));
    let sorted = in_rank_order(rows);
    let t = regressions_table(s, limit);
    law_rank_order_sorts(rows);
    lemma_regression_rows_qualify(s, first_runs(s));
    assert forall|k: int| 0 <= k < t.len() implies is_regression(#[trigger] t[k]) by {
        lemma_in_first_at_most(sorted, limit, k);
        lemma_sorted_member(rows, k);
    }
    assert forall|i: int, j: int| 0 <= i < j < t.len() implies !(#[trigger] t[j]).outranks(
        #[trigger] t[i],
    ) by {
        lemma_in_first_at_most(sorted, limit, i);
        lemma_in_first_at_most(sorted, limit, j);
    }
}

/// The command of a regression row.
pub open spec fn regression_row_command(r: RegressionRow) -> Seq<char> {
    r.command@
}

proof fn lemma_regression_rows_distinct(s: Seq<HistoryEntry>, positions: Seq<int>)
    requires
        forall|a: int, b: int|
            0 <= a < positions.len() && 0 <= b < positions.len() && a != b ==> s[#[trigger] positions[a]].command@
                != s[#[trigger] positions[b]].command@,
    ensures
        keys_distinct(regression_rows_from(s, positions), |r: RegressionRow| regression_row_command(r)),
        forall|k: int|
            0 <= k < regression_rows_from(s, positions).len() ==> exists|j: int|
                0 <= j < positions.len() && (#[trigger] regression_rows_from(s, positions)[k]).command
                    == s[positions[j]].command,
    decreases positions.len(),
{
    if positions.len() > 0 {
        let key = |r: RegressionRow| regression_row_command(r);
        let p = positions.drop_last();
        lemma_regression_rows_distinct(s, p);
        let earlier = regression_rows_from(s, p);
        let rows = regression_rows_from(s, positions);
        let last = positions.len() - 1;
        assert forall|k: int| 0 <= k < earlier.len() implies exists|j: int|
            0 <= j < positions.len() && (#[trigger] earlier[k]).command == s[positions[j]].command by {
            let j = choose|j: int| 0 <= j < p.len() && earlier[k].command == s[p[j]].command;
            assert(p[j] == positions[j]);
        }
        if is_regression(regression_row_of(s, positions.last())) {
            assert forall|i: int, j: int| 0 <= i < rows.len() && 0 <= j < rows.len() && i != j implies key(
                #[trigger] rows[i],
            ) != key(#[trigger] rows[j]) by {
                if i < earlier.len() && j < earlier.len() {
                    assert(rows[i] == earlier[i] && rows[j] == earlier[j]);
                } else if i < earlier.len() {
                    let a = choose|a: int| 0 <= a < positions.len() && earlier[i].command == s[positions[a]].command;
                    assert(rows[j].command == s[positions[last]].command);
                    assert(a != last);
                } else {
                    let a = choose|a: int| 0 <= a < positions.len() && earlier[j].command == s[positions[a]].command;
                    assert(rows[i].command == s[positions[last]].command);
                    assert(a != last);
                }
            }
            assert forall|k: int| 0 <= k < rows.len() implies exists|j: int|
                0 <= j < positions.len() && (#[trigger] rows[k]).command == s[positions[j]].command by {
                if k < earlier.len() {
                    assert(rows[k] == earlier[k]);
                } else {
                    assert(rows[k].command == s[positions[last]].command);
                }
            }
        }
    }
}

/// No command appears twice in the regressions report.
pub proof fn law_regressions_commands_distinct(s: Seq<HistoryEntry>, limit: nat)
    ensures
        keys_distinct(regressions_table(s, limit), |r: RegressionRow| regression_row_command(r)),
{
    let key = |r: RegressionRow| regression_row_command(r);
    let fr = first_runs(s);
    law_first_runs_distinct(s);
    assert forall|a: int, b: int| 0 <= a < fr.len() && 0 <= b < fr.len() && a != b implies s[
        #[trigger] fr[a]].command@ != s[#[trigger] fr[b]].command@ by {
        if b < a {
            assert(s[fr[b]].command@ != s[fr[a]].command@);
        }
    }
    lemma_regression_rows_distinct(s, fr);
    let rows = regression_rows_from(s, fr);
    law_rank_order_keeps_keys_distinct(rows, key);
    lemma_prefix_keeps_keys_distinct(in_rank_order(rows), limit, key);
}

} // verus!
