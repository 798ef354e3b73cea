use wooshh::notify::{
    attempt_launch, attempts_started, native_notifier_launches, next_attempt, record_attempt, AttemptProgress,
    NOTIFIER_APP_LOCAL, NOTIFIER_BIN_SYSTEM,
    command_hint, count_digits, native_notifier_args, native_notifier_fallback_message,
    notification_sound_plan, notification_title, parse_threshold, should_notify,
    show_desktop_notification, NotifyAttempt, Platform, CARGO_HINT, GO_HINT, JS_HINT,
    PYTHON_HINT,
};
use wooshh::text::{
    command_line, first_word_of, is_white_space_char, join_with, shown_command_line,
    soften_quotes, spaced_command_line, trim_text,
};

fn strings(items: &[&str]) -> Vec<String> {
    items.iter().map(|s| s.to_string()).collect()
}

#[test]
fn white_space_matches_std() {
    for code in 0u32..0x3100 {
        if let Some(c) = char::from_u32(code) {
            assert_eq!(is_white_space_char(c), c.is_whitespace(), "char {:#x}", code);
        }
    }
}

#[test]
fn first_word_skips_leading_space() {
    assert_eq!(first_word_of("  cargo test"), "cargo");
    assert_eq!(first_word_of("go"), "go");
    assert_eq!(first_word_of("   "), "");
    assert_eq!(first_word_of(""), "");
    assert_eq!(first_word_of("\tnpm\u{3000}run"), "npm");
}

#[test]
fn trim_matches_std() {
    for s in ["  a b  ", "", "   ", "x", "\u{a0}ab\u{2028}", "a  "] {
        assert_eq!(trim_text(s), s.trim());
    }
}

#[test]
fn join_matches_std() {
    let words = strings(&["a", "bc", "", "d"]);
    assert_eq!(join_with(&words, " "), words.join(" "));
    assert_eq!(join_with(&strings(&[]), ", "), "");
    assert_eq!(join_with(&strings(&["one"]), ", "), "one");
}

#[test]
fn command_lines() {
    assert_eq!(command_line("sleep", &strings(&["10"])), "sleep 10");
    assert_eq!(command_line("ls", &strings(&[])), "ls");
    assert_eq!(spaced_command_line("ls", &strings(&[])), "ls ");
    assert_eq!(spaced_command_line("cargo", &strings(&["test", "-q"])), "cargo test -q");
    assert_eq!(shown_command_line("ls", &strings(&[])), "ls");
    assert_eq!(shown_command_line("ls", &strings(&["-l", "/tmp"])), "ls -l /tmp");
    assert_eq!(command_line(" echo", &strings(&["hi "])), "echo hi");
}

#[test]
fn quotes_are_softened() {
    assert_eq!(soften_quotes("say \"hi\""), "say 'hi'");
    assert_eq!(soften_quotes("plain"), "plain");
}

#[test]
fn hints_by_tool() {
    assert_eq!(command_hint("cargo build"), Some(CARGO_HINT));
    assert_eq!(command_hint("npm install"), Some(JS_HINT));
    assert_eq!(command_hint("pnpm i"), Some(JS_HINT));
    assert_eq!(command_hint("yarn"), Some(JS_HINT));
    assert_eq!(command_hint("pytest -x"), Some(PYTHON_HINT));
    assert_eq!(command_hint("python main.py"), Some(PYTHON_HINT));
    assert_eq!(command_hint("go test ./..."), Some(GO_HINT));
    assert_eq!(command_hint("make"), None);
    assert_eq!(command_hint(""), None);
    assert_eq!(command_hint("cargo-nextest run"), None);
    assert!(CARGO_HINT.starts_with("Hint: try `cargo check`"));
}

#[test]
fn notify_decisions() {
    let sec = 1_000_000_000u128;
    assert!(!should_notify(false, 0, Some(60 * sec), false));
    assert!(should_notify(false, 61 * sec, Some(60 * sec), true));
    assert!(should_notify(false, 0, None, true));
    assert!(!should_notify(true, 100 * sec, None, true));
    assert!(should_notify(true, 5 * sec, None, false));
    assert!(!should_notify(true, 5 * sec, Some(30 * sec), false));
    assert!(!should_notify(true, 30 * sec, Some(30 * sec), false));
    assert!(should_notify(true, 31 * sec, Some(30 * sec), false));
}

#[test]
fn thresholds_parse() {
    let sec = 1_000_000_000u128;
    assert_eq!(parse_threshold(&Some("30s".to_string())), Some(30 * sec));
    assert_eq!(parse_threshold(&Some("2m".to_string())), Some(120 * sec));
    assert_eq!(parse_threshold(&Some("1h 30min".to_string())), Some(5400 * sec));
    assert_eq!(parse_threshold(&Some("250ms".to_string())), Some(250_000_000));
    assert_eq!(parse_threshold(&Some("soon".to_string())), None);
    assert_eq!(parse_threshold(&None), None);
    assert_eq!(parse_threshold(&Some("123456789012ns".to_string())), Some(123_456_789_012));
    assert_eq!(count_digits("1h 30min"), 3);
    assert_eq!(count_digits("abc"), 0);
}

#[test]
fn notification_plans() {
    let mac = show_desktop_notification("t\"x", "done \"ok\"", true, Platform::MacOs);
    assert_eq!(mac.len(), 3);
    assert!(matches!(mac[0], NotifyAttempt::NativeMacOs));
    match &mac[1] {
        NotifyAttempt::Run(c) => {
            assert_eq!(c.program, "osascript");
            assert_eq!(c.args, strings(&["-e", "display notification \"done 'ok'\" with title \"t'x\""]));
        }
        _ => panic!("expected a command"),
    }
    match &mac[2] {
        NotifyAttempt::Run(c) => {
            assert_eq!(c.program, "osascript");
            assert_eq!(
                c.args,
                strings(&[
                    "-e",
                    "display alert \"t'x\" message \"done 'ok'\" as informational giving up after 5"
                ])
            );
        }
        _ => panic!("expected a command"),
    }
    let linux = show_desktop_notification("title", "body", false, Platform::Linux);
    assert_eq!(linux.len(), 1);
    match &linux[0] {
        NotifyAttempt::Run(c) => {
            assert_eq!(c.program, "notify-send");
            assert_eq!(c.args, strings(&["title", "body"]));
        }
        _ => panic!("expected a command"),
    }
    assert!(show_desktop_notification("a", "b", true, Platform::Other).is_empty());
}

#[test]
fn sound_plans() {
    let mac = notification_sound_plan(false, Platform::MacOs);
    assert_eq!(mac.bells, 2);
    assert_eq!(mac.attempts.len(), 2);
    assert_eq!(mac.attempts[0].command.program, "afplay");
    assert_eq!(mac.attempts[0].command.args, strings(&["/System/Library/Sounds/Basso.aiff"]));
    assert_eq!(mac.attempts[0].needs_file.as_deref(), Some("/System/Library/Sounds/Basso.aiff"));
    assert_eq!(mac.attempts[1].command.args, strings(&["-e", "beep 2"]));
    assert_eq!(mac.attempts[1].needs_file, None);
    let linux = notification_sound_plan(true, Platform::Linux);
    assert_eq!(linux.bells, 1);
    assert_eq!(linux.attempts.len(), 1);
    assert_eq!(linux.attempts[0].command.program, "canberra-gtk-play");
    assert_eq!(linux.attempts[0].command.args, strings(&["-i", "complete"]));
    let other = notification_sound_plan(true, Platform::Other);
    assert!(other.attempts.is_empty());
    assert_eq!(other.bells, 1);
}

#[test]
fn native_notifier_texts() {
    assert_eq!(
        native_notifier_args("T", "B", false),
        strings(&["--title", "T", "--body", "B", "--kind", "failure"])
    );
    assert_eq!(native_notifier_args("T", "B", true)[5], "success");
    assert!(native_notifier_fallback_message(true).contains("was found but failed"));
    assert!(native_notifier_fallback_message(false).contains("not found"));
    assert_eq!(notification_title(true), "wooshh: command finished");
    assert_eq!(notification_title(false), "wooshh: command failed");
}

#[test]
fn native_notifier_order() {
    let all = native_notifier_launches(
        Some("/home/u/Applications/WooshhNotifier.app".to_string()),
        Some("/opt/notifier".to_string()),
        "T",
        "B",
        true,
    );
    let programs: Vec<&str> = all.iter().map(|a| a.command.program.as_str()).collect();
    assert_eq!(
        programs,
        vec![
            "open",
            "open",
            "open",
            "/opt/notifier",
            "./notifier-macos/WooshhNotifier.app/Contents/MacOS/wooshh-notifier",
            NOTIFIER_BIN_SYSTEM,
        ]
    );
    assert_eq!(
        all[0].command.args,
        strings(&[NOTIFIER_APP_LOCAL, "--args", "--title", "T", "--body", "B", "--kind", "success"])
    );
    assert_eq!(all[0].needs_file.as_deref(), Some(NOTIFIER_APP_LOCAL));
    assert_eq!(all[2].needs_file.as_deref(), Some("/home/u/Applications/WooshhNotifier.app"));
    assert_eq!(
        all[3].command.args,
        strings(&["--title", "T", "--body", "B", "--kind", "success"])
    );
    assert_eq!(all[3].needs_file.as_deref(), Some("/opt/notifier"));
    let fixed = native_notifier_launches(None, None, "T", "B", false);
    assert_eq!(fixed.len(), 4);
    assert_eq!(fixed[1].command.args[1], "--args");
    assert_eq!(fixed[1].command.args[7], "failure");
}

#[test]
fn attempts_stop_at_first_success() {
    let mut p = attempts_started();
    let outcomes = [None, Some(false), Some(true), Some(true)];
    let mut tried = Vec::new();
    while let Some(i) = next_attempt(&p, outcomes.len()) {
        tried.push(i);
        record_attempt(&mut p, outcomes[i]);
    }
    assert_eq!(tried, vec![0, 1, 2]);
    assert_eq!(p, AttemptProgress { tried: 3, found_any: true, succeeded: true });
    let mut q = attempts_started();
    while let Some(i) = next_attempt(&q, 2) {
        let _ = i;
        record_attempt(&mut q, None);
    }
    assert_eq!(q, AttemptProgress { tried: 2, found_any: false, succeeded: false });
}

#[test]
fn missing_files_launch_nothing() {
    let plan = notification_sound_plan(true, Platform::MacOs);
    assert!(attempt_launch(&plan.attempts[0], false).is_none());
    assert_eq!(attempt_launch(&plan.attempts[0], true).unwrap().program, "afplay");
    assert_eq!(attempt_launch(&plan.attempts[1], false).unwrap().program, "osascript");
    let launches = native_notifier_launches(None, Some("/opt/n".to_string()), "T", "B", true);
    assert!(attempt_launch(&launches[2], false).is_none());
    assert_eq!(attempt_launch(&launches[2], true).unwrap().program, "/opt/n");
}
