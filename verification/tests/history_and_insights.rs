use wooshh::history::{
    add_to_history, durations_and_failures, first_run_positions, HistoryEntry, HistoryFile,
    HISTORY_LIMIT,
};
use wooshh::insights::{percentile, slowest_runs, stats_rows, StatsRow};
use wooshh::regressions::{fraction_exceeds, regressions};
use wooshh::run::{
    compare_run_count, compare_summary, exit_status, failure_hint, line_destination,
    run_history_entry, run_report, LineDestination,
};

fn entry(ts: u64, command: &str, duration_ms: u64, success: bool) -> HistoryEntry {
    HistoryEntry {
        ts_epoch_secs: ts,
        command: command.to_string(),
        tag: None,
        duration_ms,
        success,
        exit_code: if success { 0 } else { 1 },
    }
}

#[test]
fn history_keeps_newest_runs() {
    let mut h = HistoryFile::default();
    add_to_history(&mut h, entry(1, "a", 10, true));
    assert_eq!(h.entries.len(), 1);
    for i in 0..(HISTORY_LIMIT as u64 + 5) {
        add_to_history(&mut h, entry(i + 2, "b", i, true));
    }
    assert_eq!(h.entries.len(), HISTORY_LIMIT);
    assert_eq!(h.entries.last().unwrap().ts_epoch_secs, HISTORY_LIMIT as u64 + 6);
    assert_eq!(h.entries[0].ts_epoch_secs, 7);
    assert!(h.entries.iter().all(|e| e.command == "b"));
}

#[test]
fn percentiles() {
    assert_eq!(percentile(vec![], 50), 0);
    assert_eq!(percentile(vec![7], 95), 7);
    assert_eq!(percentile(vec![5, 1, 3], 50), 3);
    assert_eq!(percentile(vec![4, 1, 3, 2], 50), 3);
    let values: Vec<u64> = (1..=20).rev().collect();
    assert_eq!(percentile(values.clone(), 95), 19);
    assert_eq!(percentile(values, 0), 1);
    let eleven: Vec<u64> = (0..11).collect();
    assert_eq!(percentile(eleven, 95), 10);
}

#[test]
fn percentile_agrees_with_float_rounding() {
    for n in 1usize..400 {
        let values: Vec<u64> = (0..n as u64).collect();
        for (percent, p) in [(50u64, 0.5f64), (95, 0.95)] {
            let idx = ((n - 1) as f64 * p).round() as usize;
            assert_eq!(percentile(values.clone(), percent), idx as u64, "n={} p={}", n, p);
        }
    }
}

#[test]
fn grouping_runs() {
    let entries = vec![
        entry(1, "a", 10, true),
        entry(2, "b", 20, false),
        entry(3, "a", 30, false),
        entry(4, "c", 5, true),
        entry(5, "b", 40, true),
    ];
    assert_eq!(first_run_positions(&entries), vec![0, 1, 3]);
    let (d, f) = durations_and_failures(&entries, &"a".to_string());
    assert_eq!(d, vec![10, 30]);
    assert_eq!(f, 1);
}

#[test]
fn stats_table_rows() {
    let entries = vec![
        entry(1, "a", 10, true),
        entry(2, "b", 200, false),
        entry(3, "a", 30, false),
        entry(4, "c", 5, true),
        entry(5, "b", 400, true),
        entry(6, "a", 20, true),
    ];
    let rows = stats_rows(&entries);
    assert_eq!(
        rows,
        vec![
            StatsRow { command: "b".into(), count: 2, p50_ms: 400, p95_ms: 400, failures: 1 },
            StatsRow { command: "a".into(), count: 3, p50_ms: 20, p95_ms: 30, failures: 1 },
            StatsRow { command: "c".into(), count: 1, p50_ms: 5, p95_ms: 5, failures: 0 },
        ]
    );
    let many: Vec<HistoryEntry> = (0..30).map(|i| entry(i, &format!("cmd{}", i), i, true)).collect();
    let rows = stats_rows(&many);
    assert_eq!(rows.len(), 20);
    assert_eq!(rows[0].command, "cmd29");
    assert_eq!(rows[19].command, "cmd10");
    assert!(stats_rows(&vec![]).is_empty());
}

#[test]
fn slowest_is_stable() {
    let entries = vec![
        entry(1, "a", 10, true),
        entry(2, "b", 30, true),
        entry(3, "c", 10, true),
        entry(4, "d", 50, true),
    ];
    let order: Vec<String> = slowest_runs(entries, 3).into_iter().map(|e| e.command).collect();
    assert_eq!(order, vec!["d", "b", "a"]);
    let few = slowest_runs(vec![entry(1, "x", 1, true)], 5);
    assert_eq!(few.len(), 1);
}

#[test]
fn regressions_found() {
    let entries = vec![
        entry(1, "a", 100, true),
        entry(2, "a", 100, true),
        entry(3, "a", 121, true),
        entry(1, "b", 100, true),
        entry(2, "b", 100, true),
        entry(3, "b", 120, true),
        entry(1, "c", 100, true),
        entry(5, "c", 300, true),
        entry(2, "c", 100, true),
        entry(1, "d", 10, true),
        entry(2, "d", 10, true),
        entry(3, "d", 100, true),
    ];
    let rows = regressions(&entries, 10);
    let names: Vec<&str> = rows.iter().map(|r| r.command.as_str()).collect();
    assert_eq!(names, vec!["d", "c", "a"]);
    assert_eq!(rows[1].last_ms, 300);
    assert_eq!(rows[1].baseline_total_ms, 200);
    assert_eq!(rows[1].baseline_runs, 2);
    assert_eq!(regressions(&entries, 1).len(), 1);
    let zero = vec![entry(1, "z", 0, true), entry(2, "z", 0, true), entry(3, "z", 5, true)];
    assert!(regressions(&zero, 5).is_empty());
    let two = vec![entry(1, "y", 1, true), entry(2, "y", 100, true)];
    assert!(regressions(&two, 5).is_empty());
}

#[test]
fn latest_run_ties_go_to_the_last_recorded() {
    let entries = vec![
        entry(1, "a", 100, true),
        entry(9, "a", 100, true),
        entry(9, "a", 500, true),
        entry(2, "a", 100, true),
    ];
    let rows = regressions(&entries, 5);
    assert_eq!(rows.len(), 1);
    assert_eq!(rows[0].last_ms, 500);
    assert_eq!(rows[0].baseline_total_ms, 300);
}

#[test]
fn fractions_compare_exactly() {
    assert!(fraction_exceeds(3, 2, 1, 1));
    assert!(!fraction_exceeds(1, 1, 3, 2));
    assert!(!fraction_exceeds(2, 4, 1, 2));
    assert!(fraction_exceeds(u128::MAX, u128::MAX - 1, u128::MAX - 1, u128::MAX - 2) == false);
    assert!(fraction_exceeds(u128::MAX - 1, u128::MAX - 2, u128::MAX, u128::MAX - 1));
    assert!(fraction_exceeds(7, 3, 9, 4));
    assert!(!fraction_exceeds(0, 5, 0, 7));
}

#[test]
fn run_reports() {
    let args = vec!["test".to_string(), "-q".to_string()];
    let r = run_report("cargo", &args, 2_500_000_000, Some(101), false, None, false, Some("ci".into()));
    assert_eq!(r.command, "cargo test -q");
    assert_eq!(r.duration_ms, 2500);
    assert_eq!(r.exit_code, 101);
    assert!(r.notified);
    assert_eq!(r.tag.as_deref(), Some("ci"));
    assert_eq!(exit_status(&r), Some(101));
    let h = run_history_entry(&r, 1234);
    assert_eq!(h.command, "cargo test -q");
    assert_eq!(h.ts_epoch_secs, 1234);
    assert_eq!(h.duration_ms, 2500);
    assert!(!h.success);
    assert_eq!(h.tag.as_deref(), Some("ci"));

    let ok = run_report("ls", &vec![], 999_999, None, true, Some(1_000_000_000), false, None);
    assert_eq!(ok.command, "ls");
    assert_eq!(ok.duration_ms, 0);
    assert_eq!(ok.exit_code, 1);
    assert!(!ok.notified);
    assert_eq!(exit_status(&ok), None);
}

#[test]
fn small_decisions() {
    assert_eq!(failure_hint(true, "cargo test"), None);
    assert!(failure_hint(false, "cargo test").is_some());
    assert_eq!(line_destination(true, true), LineDestination::File);
    assert_eq!(line_destination(false, true), LineDestination::Nowhere);
    assert_eq!(line_destination(false, false), LineDestination::Stdout);
    assert_eq!(compare_run_count(0), 1);
    assert_eq!(compare_run_count(4), 4);
    let s = compare_summary(&vec![30, 10, 20]);
    assert_eq!(s.runs, 3);
    assert_eq!(s.median_ms, 20);
}

#[test]
fn percentile_ignores_order_and_grows_with_percent() {
    let a = vec![9, 2, 7, 4, 4, 1, 8];
    let mut b = a.clone();
    b.reverse();
    let mut c = a.clone();
    c.sort();
    for p in [0u64, 25, 50, 95, 100] {
        assert_eq!(percentile(a.clone(), p), percentile(b.clone(), p));
        assert_eq!(percentile(a.clone(), p), percentile(c.clone(), p));
    }
    let mut last = 0;
    for p in 0..=100u64 {
        let v = percentile(a.clone(), p);
        assert!(v >= last);
        assert!(a.contains(&v));
        last = v;
    }
}

#[test]
fn reports_list_each_command_once() {
    let mut entries = Vec::new();
    for round in 0..4u64 {
        for (i, name) in ["a", "b", "c", "a b"].iter().enumerate() {
            let slow = if round == 3 { 400 } else { 100 };
            entries.push(entry(round * 10 + i as u64, name, slow + i as u64, round % 2 == 0));
        }
    }
    let rows = stats_rows(&entries);
    let mut names: Vec<&str> = rows.iter().map(|r| r.command.as_str()).collect();
    assert_eq!(rows.iter().map(|r| r.count).sum::<usize>(), entries.len());
    names.sort();
    names.dedup();
    assert_eq!(names.len(), rows.len());
    for w in rows.windows(2) {
        assert!(w[0].p50_ms >= w[1].p50_ms);
    }
    let regs = regressions(&entries, 10);
    assert_eq!(regs.len(), 4);
    let mut reg_names: Vec<&str> = regs.iter().map(|r| r.command.as_str()).collect();
    reg_names.sort();
    reg_names.dedup();
    assert_eq!(reg_names.len(), 4);
    assert!(regs.iter().all(|r| 5 * (r.baseline_runs as u128) * (r.last_ms as u128) > 6 * r.baseline_total_ms));
}

#[test]
fn regressions_ignore_history_order() {
    let entries = vec![
        entry(1, "a", 100, true),
        entry(2, "a", 100, true),
        entry(3, "a", 150, true),
        entry(1, "b", 10, true),
        entry(2, "b", 10, true),
        entry(3, "b", 40, true),
        entry(4, "c", 10, true),
    ];
    let forward = regressions(&entries, 10);
    let mut reversed_entries: Vec<HistoryEntry> = Vec::new();
    for e in entries.iter().rev() {
        reversed_entries.push(entry(e.ts_epoch_secs, &e.command, e.duration_ms, e.success));
    }
    let backward = regressions(&reversed_entries, 10);
    assert_eq!(forward, backward);
    assert_eq!(forward.len(), 2);
    assert_eq!(forward[0].command, "b");
}
