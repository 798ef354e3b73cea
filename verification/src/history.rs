//! The run history: its records, how a run is added, and how runs are grouped by command.

use vstd::prelude::*;

verus! {

/// One recorded run.
#[derive(Debug, PartialEq, Eq)]
pub struct HistoryEntry {
    pub ts_epoch_secs: u64,
    pub command: String,
    pub tag: Option<String>,
    pub duration_ms: u64,
    pub success: bool,
    pub exit_code: i32,
}

/// The whole run history, oldest run first.
#[derive(Debug, PartialEq, Eq)]
pub struct HistoryFile {
    pub entries: Vec<HistoryEntry>,
}

/// How many runs the history keeps.
pub const HISTORY_LIMIT: usize = 2000;

/// The last `n` items of `s`, or all of them when there are fewer.
pub open spec fn last_at_most<T>(s: Seq<T>, n: nat) -> Seq<T> {
    if s.len() > n {
        s.subrange(s.len() - n, s.len() as int)
    } else {
        s
    }
}

/// A history without runs.
impl Default for HistoryFile {
    fn default() -> (r: HistoryFile)
        ensures
            r.entries@ == Seq::<HistoryEntry>::empty(),
    {
        HistoryFile { entries: Vec::new() }
    }
}

/// Records `entry` as the newest run, keeping only the newest `HISTORY_LIMIT` runs.
pub fn add_to_history(history: &mut HistoryFile, entry: HistoryEntry)
    ensures
        final(history).entries@ == last_at_most(
            old(history).entries@.push(entry),
            HISTORY_LIMIT as nat,
        ),
{
    history.entries.push(entry);
    if history.entries.len() > HISTORY_LIMIT {
        let start = history.entries.len() - HISTORY_LIMIT;
        let kept = history.entries.split_off(start);
        history.entries = kept;
    }
}

/// After a run is added, the history holds at most `HISTORY_LIMIT` runs, the newest run
/// is the one added, and the runs kept are the newest ones, in their order.
pub proof fn law_add_keeps_newest(before: Seq<HistoryEntry>, entry: HistoryEntry)
    ensures
        ({
            let after = last_at_most(before.push(entry), HISTORY_LIMIT as nat);
            &&& after.len() <= HISTORY_LIMIT
            &&& after.len() == if before.len() < HISTORY_LIMIT {
                before.len() + 1int
            } else {
                HISTORY_LIMIT as int
            }
            &&& after.last() == entry
            &&& forall|i: int|
                0 <= i < after.len() ==> #[trigger] after[i] == before.push(entry)[before.len()
                    + 1 - after.len() + i]
        }),
{
}

/// The runs of `command`, in the order they were recorded.
pub open spec fn runs_of(s: Seq<HistoryEntry>, command: Seq<char>) -> Seq<HistoryEntry>
    decreases s.len(),
{
    if s.len() == 0 {
        Seq::empty()
    } else if s.last().command@ == command {
        runs_of(s.drop_last(), command).push(s.last())
    } else {
        runs_of(s.drop_last(), command)
    }
}

/// The durations of `runs`, in order.
pub open spec fn durations_of(runs: Seq<HistoryEntry>) -> Seq<u64> {
    runs.map_values(|e: HistoryEntry| e.duration_ms)
}

/// How many of `runs` failed.
pub open spec fn failures_in(runs: Seq<HistoryEntry>) -> nat
    decreases runs.len(),
{
    if runs.len() == 0 {
        0
    } else {
        failures_in(runs.drop_last()) + if runs.last().success {
            0nat
        } else {
            1nat
        }
    }
}

/// The failures counted are exactly the runs whose `success` is false: one more run adds
/// one exactly when it failed, and the count equals the number of failed runs.
pub proof fn law_failures_count_failed_runs(runs: Seq<HistoryEntry>, e: HistoryEntry)
    ensures
        failures_in(runs.push(e)) == failures_in(runs) + if e.success {
            0nat
        } else {
            1nat
        },
        failures_in(runs) == runs.filter(|x: HistoryEntry| !x.success).len(),
        failures_in(runs) <= runs.len(),
        (forall|k: int| 0 <= k < runs.len() ==> !(#[trigger] runs[k]).success) ==> failures_in(runs)
            == runs.len(),
    decreases runs.len(),
{
    assert(runs.push(e).drop_last() =~= runs);
    reveal(Seq::filter);
    if runs.len() > 0 {
        law_failures_count_failed_runs(runs.drop_last(), runs.last());
        assert forall|k: int| 0 <= k < runs.drop_last().len() implies runs.drop_last()[k] == runs[k] by {}
    }
}

/// The total duration of `runs`, in milliseconds.
pub open spec fn total_duration(runs: Seq<HistoryEntry>) -> nat
    decreases runs.len(),
{
    if runs.len() == 0 {
        0
    } else {
        total_duration(runs.drop_last()) + runs.last().duration_ms as nat
    }
}

/// Whether the command of run `i` was already run before it.
pub open spec fn seen_before(s: Seq<HistoryEntry>, i: int) -> bool {
    exists|k: int| 0 <= k < i && (#[trigger] s[k]).command@ == s[i].command@
}

/// The positions of the first run of each command, in order.
pub open spec fn first_runs(s: Seq<HistoryEntry>) -> Seq<int>
    decreases s.len(),
{
    if s.len() == 0 {
        Seq::empty()
    } else if seen_before(s, s.len() - 1) {
        first_runs(s.drop_last())
    } else {
        first_runs(s.drop_last()).push(s.len() - 1)
    }
}

/// The durations of the runs of `command`, in order, and how many of those runs failed.
pub fn durations_and_failures(entries: &Vec<HistoryEntry>, command: &String) -> (r: (
    Vec<u64>,
    usize,
))
    ensures
        r.0@ == durations_of(runs_of(entries@, command@)),
        r.1 == failures_in(runs_of(entries@, command@)),
{
    let n = entries.len();
    let mut durations: Vec<u64> = Vec::new();
    let mut failures: usize = 0;
    let mut i: usize = 0;
    while i < n
        invariant
            n == entries@.len(),
            i <= n,
            durations@ == durations_of(runs_of(entries@.take(i as int), command@)),
            failures == failures_in(runs_of(entries@.take(i as int), command@)),
            failures <= i,
        decreases n - i,
    {
        let ghost before = runs_of(entries@.take(i as int), command@);
        assert(entries@.take(i + 1).drop_last() =~= entries@.take(i as int));
        assert(entries@.take(i + 1).last() == entries@[i as int]);
        if entries[i].command == *command {
            assert(runs_of(entries@.take(i + 1), command@) == before.push(entries@[i as int]));
            assert(runs_of(entries@.take(i + 1), command@).drop_last() =~= before);
            durations.push(entries[i].duration_ms);
            assert(durations@ =~= durations_of(runs_of(entries@.take(i + 1), command@)));
            if !entries[i].success {
                failures = failures + 1;
            }
        }
        i = i + 1;
    }
    assert(entries@.take(n as int) =~= entries@);
    (durations, failures)
}

/// The first runs lie within the history, in increasing order, and their commands are
/// pairwise different.
pub proof fn law_first_runs_distinct(s: Seq<HistoryEntry>)
    ensures
        forall|a: int| 0 <= a < first_runs(s).len() ==> 0 <= #[trigger] first_runs(s)[a] < s.len(),
        forall|a: int, b: int|
            0 <= a < b < first_runs(s).len() ==> #[trigger] first_runs(s)[a] < #[trigger] first_runs(s)[b],
        forall|a: int, b: int|
            0 <= a < b < first_runs(s).len() ==> s[#[trigger] first_runs(s)[a]].command@ != s[
                #[trigger] first_runs(s)[b]].command@,
    decreases s.len(),
{
    if s.len() > 0 {
        let t = s.drop_last();
        law_first_runs_distinct(t);
        let p = first_runs(t);
        assert forall|a: int| 0 <= a < p.len() implies s[p[a]] == t[p[a]] by {}
        if !seen_before(s, s.len() - 1) {
            let q = first_runs(s);
            assert(q == p.push(s.len() - 1));
            assert forall|a: int, b: int| 0 <= a < b < q.len() implies s[#[trigger] q[a]].command@
                != s[#[trigger] q[b]].command@ by {
                if b == q.len() - 1 {
                    assert(q[a] == p[a]);
                    if s[q[a]].command@ == s[q[b]].command@ {
                        assert(s[p[a]].command@ == s[s.len() - 1].command@);
                        assert(seen_before(s, s.len() - 1));
                    }
                } else {
                    assert(q[a] == p[a] && q[b] == p[b]);
                    assert(s[p[a]] == t[p[a]] && s[p[b]] == t[p[b]]);
                }
            }
            assert forall|a: int, b: int| 0 <= a < b < q.len() implies #[trigger] q[a] < #[trigger] q[b] by {
                if b == q.len() - 1 {
                    assert(q[a] == p[a]);
                } else {
                    assert(q[a] == p[a] && q[b] == p[b]);
                }
            }
        }
    }
}

/// The number of runs of the commands first run at `positions`, added up.
pub open spec fn runs_counted(s: Seq<HistoryEntry>, positions: Seq<int>) -> nat
    decreases positions.len(),
{
    if positions.len() == 0 {
        0
    } else {
        runs_counted(s, positions.drop_last()) + runs_of(s, s[positions.last()].command@).len()
    }
}

/// How many of `positions` hold a run of `command`.
pub open spec fn positions_running(s: Seq<HistoryEntry>, positions: Seq<int>, command: Seq<char>) -> nat
    decreases positions.len(),
{
    if positions.len() == 0 {
        0
    } else {
        positions_running(s, positions.drop_last(), command) + if s[positions.last()].command@
            == command {
            1nat
        } else {
            0nat
        }
    }
}

/// Whether `command` was run at all in `s`.
pub open spec fn ever_run(s: Seq<HistoryEntry>, command: Seq<char>) -> bool {
    exists|k: int| 0 <= k < s.len() && (#[trigger] s[k]).command@ == command
}

proof fn lemma_counted_after_one_more(s: Seq<HistoryEntry>, positions: Seq<int>)
    requires
        s.len() > 0,
        forall|a: int| 0 <= a < positions.len() ==> 0 <= #[trigger] positions[a] < s.len() - 1,
    ensures
        runs_counted(s, positions) == runs_counted(s.drop_last(), positions) + positions_running(
            s.drop_last(),
            positions,
            s.last().command@,
        ),
    decreases positions.len(),
{
    if positions.len() > 0 {
        let p = positions.drop_last();
        assert forall|a: int| 0 <= a < p.len() implies 0 <= #[trigger] p[a] < s.len() - 1 by {
            assert(p[a] == positions[a]);
        }
        lemma_counted_after_one_more(s, p);
        let q = positions.last();
        assert(s.drop_last()[q] == s[q]);
    }
}

proof fn lemma_positions_running_same_prefix(s: Seq<HistoryEntry>, positions: Seq<int>, c: Seq<char>)
    requires
        s.len() > 0,
        forall|a: int| 0 <= a < positions.len() ==> 0 <= #[trigger] positions[a] < s.len() - 1,
    ensures
        positions_running(s, positions, c) == positions_running(s.drop_last(), positions, c),
    decreases positions.len(),
{
    if positions.len() > 0 {
        let p = positions.drop_last();
        assert forall|a: int| 0 <= a < p.len() implies 0 <= #[trigger] p[a] < s.len() - 1 by {
            assert(p[a] == positions[a]);
        }
        lemma_positions_running_same_prefix(s, p, c);
        assert(s.drop_last()[positions.last()] == s[positions.last()]);
    }
}

proof fn lemma_first_runs_meet_once(s: Seq<HistoryEntry>, c: Seq<char>)
    ensures
        positions_running(s, first_runs(s), c) == if ever_run(s, c) {
            1nat
        } else {
            0nat
        },
    decreases s.len(),
{
    if s.len() > 0 {
        let t = s.drop_last();
        lemma_first_runs_meet_once(t, c);
        law_first_runs_distinct(t);
        let ft = first_runs(t);
        assert forall|a: int| 0 <= a < ft.len() implies 0 <= #[trigger] ft[a] < s.len() - 1 by {}
        lemma_positions_running_same_prefix(s, ft, c);
        if ever_run(t, c) {
            let k = choose|k: int| 0 <= k < t.len() && (#[trigger] t[k]).command@ == c;
            assert(s[k] == t[k]);
        }
        if ever_run(s, c) && !ever_run(t, c) {
            let k = choose|k: int| 0 <= k < s.len() && (#[trigger] s[k]).command@ == c;
            if k < t.len() {
                assert(t[k] == s[k]);
            }
            assert(s.last().command@ == c);
        }
        if seen_before(s, s.len() - 1) {
            let k = choose|k: int| 0 <= k < s.len() - 1 && (#[trigger] s[k]).command@ == s[s.len() - 1].command@;
            assert(t[k] == s[k]);
        } else {
            assert(first_runs(s).drop_last() =~= ft);
            if ever_run(t, c) && s.last().command@ == c {
                let k = choose|k: int| 0 <= k < t.len() && (#[trigger] t[k]).command@ == c;
                assert(s[k] == t[k]);
                assert(seen_before(s, s.len() - 1));
            }
        }
    }
}

proof fn lemma_never_run_no_runs(s: Seq<HistoryEntry>, c: Seq<char>)
    requires
        !ever_run(s, c),
    ensures
        runs_of(s, c).len() == 0,
    decreases s.len(),
{
    if s.len() > 0 {
        let t = s.drop_last();
        assert forall|k: int| 0 <= k < t.len() implies (#[trigger] t[k]).command@ != c by {
            assert(t[k] == s[k]);
        }
        lemma_never_run_no_runs(t, c);
        assert(s[s.len() - 1] == s.last());
    }
}

/// Grouping by command partitions the history: the runs of the commands, each counted
/// once at its first run, add up to all runs.
pub proof fn law_groups_partition_runs(s: Seq<HistoryEntry>)
    ensures
        runs_counted(s, first_runs(s)) == s.len(),
    decreases s.len(),
{
    if s.len() > 0 {
        let t = s.drop_last();
        let c = s.last().command@;
        law_groups_partition_runs(t);
        law_first_runs_distinct(t);
        let ft = first_runs(t);
        assert forall|a: int| 0 <= a < ft.len() implies 0 <= #[trigger] ft[a] < s.len() - 1 by {}
        lemma_counted_after_one_more(s, ft);
        lemma_first_runs_meet_once(t, c);
        if seen_before(s, s.len() - 1) {
            let k = choose|k: int| 0 <= k < s.len() - 1 && (#[trigger] s[k]).command@ == s[s.len() - 1].command@;
            assert(t[k] == s[k]);
            assert(ever_run(t, c));
        } else {
            assert(!ever_run(t, c)) by {
                if ever_run(t, c) {
                    let k = choose|k: int| 0 <= k < t.len() && (#[trigger] t[k]).command@ == c;
                    assert(s[k] == t[k]);
                    assert(seen_before(s, s.len() - 1));
                }
            }
            lemma_never_run_no_runs(t, c);
            let fs = first_runs(s);
            assert(fs.drop_last() =~= ft);
            assert(fs.last() == s.len() - 1);
        }
    }
}

/// The positions of the first run of each command, in order.
pub fn first_run_positions(entries: &Vec<HistoryEntry>) -> (r: Vec<usize>)
    ensures
        r@.map_values(|x: usize| x as int) == first_runs(entries@),
        forall|j: int| 0 <= j < r@.len() ==> r@[j] < entries@.len(),
{
    let n = entries.len();
    let mut r: Vec<usize> = Vec::new();
    let mut i: usize = 0;
    while i < n
        invariant
            n == entries@.len(),
            i <= n,
            r@.map_values(|x: usize| x as int) == first_runs(entries@.take(i as int)),
            forall|j: int| 0 <= j < r@.len() ==> r@[j] < i,
        decreases n - i,
    {
        let ghost prefix = entries@.take(i + 1);
        let mut seen = false;
        let mut k: usize = 0;
        while k < i && !seen
            invariant
                n == entries@.len(),
                i < n,
                k <= i,
                prefix == entries@.take(i + 1),
                seen ==> seen_before(prefix, i as int),
                !seen ==> forall|m: int| 0 <= m < k ==> (#[trigger] prefix[m]).command@ != prefix[i as int].command@,
            decreases i - k,
        {
            if entries[k].command == entries[i].command {
                seen = true;
                assert(prefix[k as int] == entries@[k as int]);
            }
            k = k + 1;
        }
        assert(prefix.drop_last() =~= entries@.take(i as int));
        assert(prefix.len() - 1 == i);
        if !seen {
            assert(!seen_before(prefix, i as int));
            r.push(i);
            assert(r@.map_values(|x: usize| x as int) =~= first_runs(entries@.take(i as int)).push(i as int));
        }
        i = i + 1;
    }
    assert(entries@.take(n as int) =~= entries@);
    r
}

} // verus!
