//! What the history reveals: percentiles, per-command statistics and the slowest runs.

use vstd::prelude::*;
use crate::history::{
    durations_and_failures, durations_of, failures_in, first_run_positions, first_runs, runs_of,
    law_first_runs_distinct, law_groups_partition_runs, runs_counted, HistoryEntry,
};
use crate::ranking::{
    first_at_most, in_rank_order, keys_distinct, law_rank_order_keeps_keys_distinct,
    law_rank_order_sorts, lemma_in_first_at_most, lemma_prefix_keeps_keys_distinct,
    lemma_sorted_member, sort_ranked, Ranked,
};

verus! {

/// The position of the `percent` percentile in an ordered list of `len` values: the
/// nearest rank to `(len - 1) * percent / 100`, halves rounded up.
pub open spec fn percentile_index(len: nat, percent: nat) -> int {
    (((len - 1) * percent * 2 + 100) / 200) as int
}

/// The `percent` percentile of `values` (0 for no values).
pub open spec fn percentile_of(values: Seq<u64>, percent: nat) -> u64 {
    if values.len() == 0 {
        0
    } else {
        in_rank_order(values)[percentile_index(values.len(), percent)]
    }
}

proof fn lemma_percentile_index_bounds(len: nat, percent: nat)
    requires
        len > 0,
        percent <= 100,
    ensures
        0 <= percentile_index(len, percent) < len,
{
    let m = (len - 1) as nat;
    assert(m * percent * 2 <= m * 200) by (nonlinear_arith)
        requires
            percent <= 100,
    ;
    assert((m * percent * 2 + 100) / 200 <= (m * 200 + 100) / 200) by (nonlinear_arith)
        requires
            m * percent * 2 <= m * 200,
    ;
    assert((m * 200 + 100) / 200 == m) by (nonlinear_arith);
}

/// A copy of `values`.
pub fn copy_values(values: &Vec<u64>) -> (r: Vec<u64>)
    ensures
        r@ == values@,
{
    let mut r: Vec<u64> = Vec::new();
    let n = values.len();
    let mut i: usize = 0;
    while i < n
        invariant
            n == values@.len(),
            i <= n,
            r@ == values@.take(i as int),
        decreases n - i,
    {
        r.push(values[i]);
        i = i + 1;
    }
    assert(values@.take(n as int) =~= values@);
    r
}

/// The `percent` percentile of `values`: the value at the nearest rank once they are
/// ordered, 0 when there are none.
pub fn percentile(values: Vec<u64>, percent: u64) -> (r: u64)
    requires
        percent <= 100,
    ensures
        r == percentile_of(values@, percent as nat),
{
    let n = values.len();
    if n == 0 {
        return 0;
    }
    let ghost original = values@;
    proof {
        law_rank_order_sorts(original);
        lemma_percentile_index_bounds(n as nat, percent as nat);
    }
    let sorted = sort_ranked(values);
    let wide: u128 = ((n - 1) as u128) * (percent as u128) * 2 + 100;
    let idx = (wide / 200) as usize;
    sorted[idx]
}

/// The percentile of a non-empty list is one of its values.
pub proof fn law_percentile_is_a_value(values: Seq<u64>, percent: nat)
    requires
        values.len() > 0,
        percent <= 100,
    ensures
        values.contains(percentile_of(values, percent)),
{
    law_rank_order_sorts(values);
    lemma_percentile_index_bounds(values.len(), percent);
    let sorted = in_rank_order(values);
    let x = sorted[percentile_index(values.len(), percent)];
    vstd::seq_lib::to_multiset_contains(sorted, x);
    vstd::seq_lib::to_multiset_contains(values, x);
    assert(sorted.contains(x));
}

/// A higher percentile is never a smaller value.
pub proof fn law_percentile_monotone(values: Seq<u64>, lower: nat, higher: nat)
    requires
        lower <= higher <= 100,
    ensures
        percentile_of(values, lower) <= percentile_of(values, higher),
{
    if values.len() > 0 {
        law_rank_order_sorts(values);
        lemma_percentile_index_bounds(values.len(), lower);
        lemma_percentile_index_bounds(values.len(), higher);
        let m = (values.len() - 1) as nat;
        assert(m * lower * 2 <= m * higher * 2) by (nonlinear_arith)
            requires
                lower <= higher,
        ;
        assert((m * lower * 2 + 100) / 200 <= (m * higher * 2 + 100) / 200) by (nonlinear_arith)
            requires
                m * lower * 2 <= m * higher * 2,
        ;
        let sorted = in_rank_order(values);
        let i = percentile_index(values.len(), lower);
        let j = percentile_index(values.len(), higher);
        if i < j {
            assert(!sorted[j].outranks(sorted[i]));
        }
    }
}

/// The 0th percentile is the smallest value and the 100th the largest.
pub proof fn law_percentile_extremes(values: Seq<u64>)
    requires
        values.len() > 0,
    ensures
        values.contains(percentile_of(values, 0)),
        values.contains(percentile_of(values, 100)),
        forall|k: int| 0 <= k < values.len() ==> percentile_of(values, 0) <= #[trigger] values[k]
            <= percentile_of(values, 100),
{
    law_percentile_is_a_value(values, 0);
    law_percentile_is_a_value(values, 100);
    law_rank_order_sorts(values);
    let sorted = in_rank_order(values);
    let n = values.len();
    assert(percentile_index(n, 0) == 0) by (nonlinear_arith)
        requires
            n > 0,
    ;
    assert(percentile_index(n, 100) == n - 1) by (nonlinear_arith)
        requires
            n > 0,
    ;
    assert forall|k: int| 0 <= k < values.len() implies percentile_of(values, 0) <= #[trigger] values[k]
        <= percentile_of(values, 100) by {
        let x = values[k];
        assert(values.contains(x));
        vstd::seq_lib::to_multiset_contains(values, x);
        vstd::seq_lib::to_multiset_contains(sorted, x);
        let j = choose|j: int| 0 <= j < sorted.len() && sorted[j] == x;
        if j > 0 {
            assert(!sorted[j].outranks(sorted[0]));
        }
        if j < n - 1 {
            assert(!sorted[n - 1].outranks(sorted[j]));
        }
    }
}

/// The percentile depends on which values there are, not on their order.
pub proof fn law_percentile_ignores_order(a: Seq<u64>, b: Seq<u64>, percent: nat)
    requires
        a.to_multiset() == b.to_multiset(),
    ensures
        percentile_of(a, percent) == percentile_of(b, percent),
{
    law_rank_order_sorts(a);
    law_rank_order_sorts(b);
    vstd::seq_lib::to_multiset_len(a);
    vstd::seq_lib::to_multiset_len(b);
    let leq = |x: u64, y: u64| x <= y;
    let sa = in_rank_order(a);
    let sb = in_rank_order(b);
    assert(vstd::relations::sorted_by(sa, leq)) by {
        assert forall|i: int, j: int| 0 <= i < j < sa.len() implies #[trigger] leq(sa[i], sa[j]) by {
            assert(!sa[j].outranks(sa[i]));
        }
    }
    assert(vstd::relations::sorted_by(sb, leq)) by {
        assert forall|i: int, j: int| 0 <= i < j < sb.len() implies #[trigger] leq(sb[i], sb[j]) by {
            assert(!sb[j].outranks(sb[i]));
        }
    }
    assert(vstd::relations::total_ordering(leq));
    vstd::seq_lib::lemma_sorted_unique(sa, sb, leq);
}

/// The statistics of one command: how often it ran, its median and 95th percentile
/// durations in milliseconds, and how many of its runs failed.
#[derive(Debug, PartialEq, Eq)]
pub struct StatsRow {
    pub command: String,
    pub count: usize,
    pub p50_ms: u64,
    pub p95_ms: u64,
    pub failures: usize,
}

/// Statistics rows go slowest median first.
impl Ranked for StatsRow {
    open spec fn outranks(self, other: StatsRow) -> bool {
        self.p50_ms > other.p50_ms
    }

    proof fn lemma_outranks_transitive(a: StatsRow, b: StatsRow, c: StatsRow) {
    }

    proof fn lemma_outranks_irreflexive(a: StatsRow) {
    }

    fn goes_before(&self, other: &StatsRow) -> (r: bool) {
        self.p50_ms > other.p50_ms
    }
}

/// How many commands the statistics show.
pub const STATS_ROW_LIMIT: usize = 20;

/// The statistics row of the command first run at position `i` of `s`.
pub open spec fn stats_row_of(s: Seq<HistoryEntry>, i: int) -> StatsRow {
    let runs = runs_of(s, s[i].command@);
    StatsRow {
        command: s[i].command,
        count: runs.len() as usize,
        p50_ms: percentile_of(durations_of(runs), 50),
        p95_ms: percentile_of(durations_of(runs), 95),
        failures: failures_in(runs) as usize,
    }
}

/// One statistics row per command, in the order the commands first ran.
pub open spec fn stats_rows_of(s: Seq<HistoryEntry>) -> Seq<StatsRow> {
    first_runs(s).map_values(|i: int| stats_row_of(s, i))
}

/// The statistics table: the rows of the commands with the slowest medians, slowest
/// first, at most `STATS_ROW_LIMIT` of them.
pub open spec fn stats_table(s: Seq<HistoryEntry>) -> Seq<StatsRow> {
    first_at_most(in_rank_order(stats_rows_of(s)), STATS_ROW_LIMIT as nat)
}

proof fn lemma_runs_count_bounds(s: Seq<HistoryEntry>, c: Seq<char>)
    ensures
        runs_of(s, c).len() <= s.len(),
        failures_in(runs_of(s, c)) <= runs_of(s, c).len(),
    decreases s.len(),
{
    if s.len() > 0 {
        lemma_runs_count_bounds(s.drop_last(), c);
        let prev = runs_of(s.drop_last(), c);
        if s.last().command@ == c {
            assert(prev.push(s.last()).drop_last() =~= prev);
        }
    }
}

/// The per-command statistics table of the history `entries`.
pub fn stats_rows(entries: &Vec<HistoryEntry>) -> (r: Vec<StatsRow>)
    ensures
        r@ == stats_table(entries@),
{
    let firsts = first_run_positions(entries);
    let ghost positions = firsts@.map_values(|x: usize| x as int);
    let m = firsts.len();
    let mut rows: Vec<StatsRow> = Vec::new();
    let mut k: usize = 0;
    while k < m
        invariant
            m == firsts@.len(),
            k <= m,
            positions == firsts@.map_values(|x: usize| x as int),
            positions == first_runs(entries@),
            forall|j: int| 0 <= j < firsts@.len() ==> firsts@[j] < entries@.len(),
            rows@.len() == k,
            forall|j: int| 0 <= j < k ==> rows@[j] == stats_row_of(entries@, #[trigger] positions[j]),
        decreases m - k,
    {
        let i = firsts[k];
        let command = entries[i].command.clone();
        let (durations, failures) = durations_and_failures(entries, &command);
        proof {
            lemma_runs_count_bounds(entries@, command@);
        }
        let count = durations.len();
        let p50 = percentile(copy_values(&durations), 50);
        let p95 = percentile(durations, 95);
        let row = StatsRow { command, count, p50_ms: p50, p95_ms: p95, failures };
        assert(positions[k as int] == i as int);
        assert(row == stats_row_of(entries@, i as int));
        rows.push(row);
        k = k + 1;
    }
    assert(rows@ =~= stats_rows_of(entries@));
    let mut sorted = sort_ranked(rows);
    sorted.truncate(STATS_ROW_LIMIT);
    assert(sorted@ =~= stats_table(entries@));
    sorted
}

/// Runs go slowest first.
impl Ranked for HistoryEntry {
    open spec fn outranks(self, other: HistoryEntry) -> bool {
        self.duration_ms > other.duration_ms
    }

    proof fn lemma_outranks_transitive(a: HistoryEntry, b: HistoryEntry, c: HistoryEntry) {
    }

    proof fn lemma_outranks_irreflexive(a: HistoryEntry) {
    }

    fn goes_before(&self, other: &HistoryEntry) -> (r: bool) {
        self.duration_ms > other.duration_ms
    }
}

/// The `limit` slowest runs, slowest first; runs that took equally long keep the order in
/// which they were recorded.
pub fn slowest_runs(entries: Vec<HistoryEntry>, limit: usize) -> (r: Vec<HistoryEntry>)
    ensures
        r@ == first_at_most(in_rank_order(entries@), limit as nat),
{
    let mut sorted = sort_ranked(entries);
    sorted.truncate(limit);
    sorted
}

/// The slowest-runs list is ordered slowest first, holds `min(limit, runs)` runs, and no
/// run left out took longer than one shown.
pub proof fn law_slowest_first(entries: Seq<HistoryEntry>, limit: nat)
    ensures
        ({
            let shown = first_at_most(in_rank_order(entries), limit);
            &&& shown.len() == if entries.len() > limit {
                limit as int
            } else {
                entries.len() as int
            }
            &&& forall|i: int, j: int|
                0 <= i < j < shown.len() ==> (#[trigger] shown[i]).duration_ms >= (
                #[trigger] shown[j]).duration_ms
            &&& forall|i: int, j: int|
                0 <= i < shown.len() <= j < entries.len() ==> (#[trigger] shown[i]).duration_ms
                    >= (#[trigger] in_rank_order(entries)[j]).duration_ms
        }),
{
    law_rank_order_sorts(entries);
    let sorted = in_rank_order(entries);
    assert forall|i: int, j: int| 0 <= i < j < sorted.len() implies (
    #[trigger] sorted[i]).duration_ms >= (#[trigger] sorted[j]).duration_ms by {
        assert(!sorted[j].outranks(sorted[i]));
    }
}
/// `row` is the statistics row of one of the commands of `s`.
pub open spec fn describes_a_command(s: Seq<HistoryEntry>, row: StatsRow) -> bool {
    exists|i: int| first_runs(s).contains(i) && row == #[trigger] stats_row_of(s, i)
}

/// The statistics table shows at most `STATS_ROW_LIMIT` rows, slowest median first, and
/// each row is the statistics of a command of the history, taken at its first run.
pub proof fn law_stats_table(s: Seq<HistoryEntry>)
    ensures
        ({
            let t = stats_table(s);
            &&& t.len() <= STATS_ROW_LIMIT
            &&& forall|i: int, j: int|
                0 <= i < j < t.len() ==> (#[trigger] t[i]).p50_ms >= (#[trigger] t[j]).p50_ms
            &&& forall|k: int| 0 <= k < t.len() ==> describes_a_command(s, #[trigger] t[k])
        }),
{
    let rows = stats_rows_of(s);
    let sorted = in_rank_order(rows);
    let t = stats_table(s);
    law_rank_order_sorts(rows);
    assert(t.len() <= STATS_ROW_LIMIT);
    assert forall|i: int, j: int| 0 <= i < j < t.len() implies (#[trigger] t[i]).p50_ms >= (
    #[trigger] t[j]).p50_ms by {
        lemma_in_first_at_most(sorted, STATS_ROW_LIMIT as nat, i);
        lemma_in_first_at_most(sorted, STATS_ROW_LIMIT as nat, j);
        assert(!sorted[j].outranks(sorted[i]));
    }
    assert forall|k: int| 0 <= k < t.len() implies describes_a_command(s, #[trigger] t[k]) by {
        lemma_in_first_at_most(sorted, STATS_ROW_LIMIT as nat, k);
        lemma_sorted_member(rows, k);
        let j = choose|j: int| 0 <= j < rows.len() && rows[j] == t[k];
        assert(rows[j] == stats_row_of(s, first_runs(s)[j]));
        assert(first_runs(s).contains(first_runs(s)[j]));
    }
}

/// The command of a statistics row.
pub open spec fn stats_row_command(r: StatsRow) -> Seq<char> {
    r.command@
}

/// No command appears twice in the statistics table.
pub proof fn law_stats_commands_distinct(s: Seq<HistoryEntry>)
    ensures
        keys_distinct(stats_table(s), |r: StatsRow| stats_row_command(r)),
{
    let key = |r: StatsRow| stats_row_command(r);
    let rows = stats_rows_of(s);
    let fr = first_runs(s);
    law_first_runs_distinct(s);
    assert forall|i: int, j: int| 0 <= i < rows.len() && 0 <= j < rows.len() && i != j implies key(
        #[trigger] rows[i],
    ) != key(#[trigger] rows[j]) by {
        assert(rows[i].command == s[fr[i]].command);
        assert(rows[j].command == s[fr[j]].command);
        if i < j {
            assert(s[fr[i]].command@ != s[fr[j]].command@);
        } else {
            assert(s[fr[j]].command@ != s[fr[i]].command@);
        }
    }
    law_rank_order_keeps_keys_distinct(rows, key);
    lemma_prefix_keeps_keys_distinct(in_rank_order(rows), STATS_ROW_LIMIT as nat, key);
}

/// The run counts of `rows`, added up.
pub open spec fn counts_total(rows: Seq<StatsRow>) -> nat
    decreases rows.len(),
{
    if rows.len() == 0 {
        0
    } else {
        counts_total(rows.drop_last()) + rows.last().count as nat
    }
}

proof fn lemma_counts_match_runs(s: Seq<HistoryEntry>, positions: Seq<int>)
    requires
        s.len() <= usize::MAX,
    ensures
        counts_total(positions.map_values(|i: int| stats_row_of(s, i))) == runs_counted(
            s,
            positions,
        ),
    decreases positions.len(),
{
    if positions.len() > 0 {
        let p = positions.drop_last();
        lemma_counts_match_runs(s, p);
        let rows = positions.map_values(|i: int| stats_row_of(s, i));
        assert(rows.drop_last() =~= p.map_values(|i: int| stats_row_of(s, i)));
        lemma_runs_count_bounds(s, s[positions.last()].command@);
    }
}

/// Before it is cut to `STATS_ROW_LIMIT` rows, the statistics table counts every run of
/// the history exactly once.
pub proof fn law_stats_counts_cover_history(s: Seq<HistoryEntry>)
    requires
        s.len() <= usize::MAX,
    ensures
        counts_total(stats_rows_of(s)) == s.len(),
{
    lemma_counts_match_runs(s, first_runs(s));
    law_groups_partition_runs(s);
}

} // verus!
