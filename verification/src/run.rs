//! What follows a timed run: its report, its history record, its exit status, and the
//! decisions of the compare mode.

use vstd::prelude::*;
use crate::history::HistoryEntry;
use crate::insights::{copy_values, percentile, percentile_of};
use crate::notify::{command_hint, hint_for, notify_wanted, should_notify};
use crate::text::{command_line, first_word, spaced_command, trimmed, views};

verus! {

/// The report of one timed run, as the JSON output gives it.
#[derive(Debug, PartialEq, Eq)]
pub struct RunJsonOutput {
    pub command: String,
    pub duration_ms: u64,
    pub success: bool,
    pub exit_code: i32,
    pub notified: bool,
    pub tag: Option<String>,
}

/// Nanoseconds in a millisecond.
pub const NANOS_PER_MILLI: u128 = 1_000_000;

/// The report of a run of `command` with `args` that took `duration` nanoseconds and
/// ended with `exit_code` (`None` when it was ended by a signal): whole milliseconds,
/// exit code 1 when there is none, and whether it is to be announced.
pub fn run_report(
    command: &str,
    args: &Vec<String>,
    duration: u128,
    exit_code: Option<i32>,
    success: bool,
    notify_threshold: Option<u128>,
    on_failure_only: bool,
    tag: Option<String>,
) -> (r: RunJsonOutput)
    ensures
        r.command@ == trimmed(spaced_command(command@, views(args@))),
        r.duration_ms == (duration / NANOS_PER_MILLI) as u64,
        r.success == success,
        r.exit_code == match exit_code {
            Some(code) => code,
            None => 1,
        },
        r.notified == notify_wanted(success, duration, notify_threshold, on_failure_only),
        r.tag == tag,
{
    let notified = should_notify(success, duration, notify_threshold, on_failure_only);
    RunJsonOutput {
        command: command_line(command, args),
        duration_ms: (duration / NANOS_PER_MILLI) as u64,
        success,
        exit_code: match exit_code {
            Some(code) => code,
            None => 1,
        },
        notified,
        tag,
    }
}

fn copy_tag(tag: &Option<String>) -> (r: Option<String>)
    ensures
        r == *tag,
{
    match tag {
        Some(t) => Some(t.clone()),
        None => None,
    }
}

/// The history record of a reported run that ended at `ts_epoch_secs`.
pub fn run_history_entry(report: &RunJsonOutput, ts_epoch_secs: u64) -> (r: HistoryEntry)
    ensures
        r == (HistoryEntry {
            ts_epoch_secs,
            command: report.command,
            tag: report.tag,
            duration_ms: report.duration_ms,
            success: report.success,
            exit_code: report.exit_code,
        }),
{
    HistoryEntry {
        ts_epoch_secs,
        command: report.command.clone(),
        tag: copy_tag(&report.tag),
        duration_ms: report.duration_ms,
        success: report.success,
        exit_code: report.exit_code,
    }
}

/// The status to leave with: the run's exit code when it failed, none when it succeeded.
pub fn exit_status(report: &RunJsonOutput) -> (r: Option<i32>)
    ensures
        r == if report.success {
            None
        } else {
            Some(report.exit_code)
        },
{
    if report.success {
        None
    } else {
        Some(report.exit_code)
    }
}

/// The hint to print after a run of `command`: only after a failure, and only for known
/// tools.
pub fn failure_hint(success: bool, command: &str) -> (r: Option<&'static str>)
    ensures
        success ==> r is None,
        !success ==> match r {
            None => hint_for(first_word(command@)) is None,
            Some(h) => hint_for(first_word(command@)) == Some(h@),
        },
{
    if success {
        None
    } else {
        command_hint(command)
    }
}

/// Where a line of the timing output goes.
#[derive(Clone, Copy, Debug, PartialEq, Eq, Structural)]
pub enum LineDestination {
    File,
    Stdout,
    Nowhere,
}

/// Where a line of the timing output goes: to the output file when there is one (even when
/// quiet), else to standard output unless quiet.
pub fn line_destination(has_output_file: bool, quiet: bool) -> (r: LineDestination)
    ensures
        r == if has_output_file {
            LineDestination::File
        } else if quiet {
            LineDestination::Nowhere
        } else {
            LineDestination::Stdout
        },
{
    if has_output_file {
        LineDestination::File
    } else if quiet {
        LineDestination::Nowhere
    } else {
        LineDestination::Stdout
    }
}

/// How many times compare mode runs the command: as asked, but at least once.
pub fn compare_run_count(runs: usize) -> (r: usize)
    ensures
        r == if runs == 0 {
            1
        } else {
            runs
        },
{
    if runs == 0 {
        1
    } else {
        runs
    }
}

/// The integer part of the compare summary: how many runs were timed and their median.
#[derive(Debug, PartialEq, Eq)]
pub struct CompareSummary {
    pub runs: usize,
    pub median_ms: u64,
}

/// The number of runs and the median of the durations `durations`, in milliseconds.
pub fn compare_summary(durations: &Vec<u64>) -> (r: CompareSummary)
    ensures
        r.runs == durations@.len(),
        r.median_ms == percentile_of(durations@, 50),
{
    CompareSummary { runs: durations.len(), median_ms: percentile(copy_values(durations), 50) }
}

} // verus!
