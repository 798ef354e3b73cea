//! When to notify, and what to try in order to notify.

use vstd::prelude::*;
use crate::text::{first_word, first_word_of, quotes_softened, soften_quotes};

verus! {

/// The hint shown after a failed `cargo` command.
pub const CARGO_HINT: &'static str =
    "Hint: try `cargo check` for a faster compile pass, or run the failing package only.";

/// The hint shown after a failed `npm`, `pnpm` or `yarn` command.
pub const JS_HINT: &'static str =
    "Hint: dependency/build failures are often fixed by a clean install before retry.";

/// The hint shown after a failed `pytest` or `python` command.
pub const PYTHON_HINT: &'static str =
    "Hint: rerun a narrow test target first to isolate the failing area quickly.";

/// The hint shown after a failed `go` command.
pub const GO_HINT: &'static str =
    "Hint: run `go test ./...` to confirm whether failure is isolated or widespread.";

/// The hint for a failed command whose program is `program`.
pub open spec fn hint_for(program: Seq<char>) -> Option<Seq<char>> {
    if program == "cargo"@ {
        Some(CARGO_HINT@)
    } else if program == "npm"@ || program == "pnpm"@ || program == "yarn"@ {
        Some(JS_HINT@)
    } else if program == "pytest"@ || program == "python"@ {
        Some(PYTHON_HINT@)
    } else if program == "go"@ {
        Some(GO_HINT@)
    } else {
        None
    }
}

/// A troubleshooting hint for a failed command, chosen by its first word.
pub fn command_hint(command: &str) -> (r: Option<&'static str>)
    ensures
        match r {
            None => hint_for(first_word(command@)) is None,
            Some(h) => hint_for(first_word(command@)) == Some(h@),
        },
{
    let word = first_word_of(command);
    if word == String::from_str("cargo") {
        Some(CARGO_HINT)
    } else if word == String::from_str("npm") || word == String::from_str("pnpm") || word
        == String::from_str("yarn") {
        Some(JS_HINT)
    } else if word == String::from_str("pytest") || word == String::from_str("python") {
        Some(PYTHON_HINT)
    } else if word == String::from_str("go") {
        Some(GO_HINT)
    } else {
        None
    }
}

/// Whether a run is announced: with `--on-failure-only` only a failed run is, and with
/// `--notify-if-over` only a run whose duration exceeds the threshold is. Durations are in
/// nanoseconds.
pub open spec fn notify_wanted(
    success: bool,
    duration: u128,
    threshold: Option<u128>,
    on_failure_only: bool,
) -> bool {
    &&& !(on_failure_only && success)
    &&& threshold matches Some(t) ==> duration > t
}

/// Whether to announce a finished run that took `duration` nanoseconds.
pub fn should_notify(
    success: bool,
    duration: u128,
    notify_if_over: Option<u128>,
    on_failure_only: bool,
) -> (r: bool)
    ensures
        r == notify_wanted(success, duration, notify_if_over, on_failure_only),
{
    if on_failure_only && success {
        return false;
    }
    match notify_if_over {
        Some(threshold) => duration > threshold,
        None => true,
    }
}

/// Without a threshold, a failed run is announced whatever the other settings.
pub proof fn law_failure_without_threshold_notifies(duration: u128, on_failure_only: bool)
    ensures
        notify_wanted(false, duration, None, on_failure_only),
{
}

/// With a threshold, a run is announced only when its duration exceeds it, and a run that
/// exceeds it is announced unless it succeeded under `--on-failure-only`.
pub proof fn law_threshold_must_be_exceeded(
    success: bool,
    duration: u128,
    threshold: u128,
    on_failure_only: bool,
)
    ensures
        notify_wanted(success, duration, Some(threshold), on_failure_only) <==> (duration
            > threshold && !(on_failure_only && success)),
{
}

/// Without a threshold and without `--on-failure-only`, every run is announced, however
/// short and whether it failed or not.
pub proof fn law_no_flags_announce_every_run(success: bool, duration: u128)
    ensures
        notify_wanted(success, duration, None, false),
{
}

/// With `--on-failure-only`, a successful run is never announced.
pub proof fn law_failure_only_silences_success(duration: u128, threshold: Option<u128>)
    ensures
        !notify_wanted(true, duration, threshold, true),
{
}

/// A run that is announced would also be announced had it taken longer.
pub proof fn law_notify_monotone_in_duration(
    success: bool,
    shorter: u128,
    longer: u128,
    threshold: Option<u128>,
    on_failure_only: bool,
)
    requires
        shorter <= longer,
        notify_wanted(success, shorter, threshold, on_failure_only),
    ensures
        notify_wanted(success, longer, threshold, on_failure_only),
{
}

/// The number of ASCII digits in `s`.
pub open spec fn digit_count(s: Seq<char>) -> nat
    decreases s.len(),
{
    if s.len() == 0 {
        0
    } else {
        digit_count(s.drop_last()) + if '0' <= s.last() <= '9' {
            1nat
        } else {
            0nat
        }
    }
}

/// Thresholds with at most this many digits are parsed here.
pub const THRESHOLD_DIGIT_LIMIT: usize = 12;

/// The number of ASCII digits in `s`.
pub fn count_digits(s: &str) -> (r: usize)
    ensures
        r == digit_count(s@),
{
    let n = s.unicode_len();
    let mut r: usize = 0;
    let mut i: usize = 0;
    while i < n
        invariant
            n == s@.len(),
            i <= n,
            r == digit_count(s@.take(i as int)),
            r <= i,
        decreases n - i,
    {
        let c = s.get_char(i);
        assert(s@.take(i + 1).drop_last() =~= s@.take(i as int));
        if '0' <= c && c <= '9' {
            r = r + 1;
        }
        i = i + 1;
    }
    assert(s@.take(n as int) =~= s@);
    r
}

/// What `humantime::parse_duration` makes of `text`, in nanoseconds (`None` where it
/// reports an error).
pub uninterp spec fn humantime_duration_nanos(text: Seq<char>) -> Option<u128>;

/// `humantime::parse_duration`, with the duration given in nanoseconds and the error
/// dropped. The result is a function of the text alone; nothing more is claimed of it.
/// The parser panics only in `Duration::new`, when the total reaches the largest number of
/// seconds a `Duration` holds while exactly one second of nanoseconds is carried. With at
/// most twelve digits in the text that cannot happen: every digit belongs to one number;
/// if all numbers have at most eleven digits, their sum stays below 10^11 + 12, each unit
/// is at most a year (31557600 s) and each fraction adds less than one unit, so the total
/// stays below 4e18 seconds; if one number has twelve digits it holds every digit, so the
/// text is a single whole amount of one unit: whole seconds with no nanoseconds, or (for
/// `ns`, `us`, `ms`) nanoseconds worth less than 10^9 seconds.
#[verifier::external_body]
fn parse_duration_nanos(text: &str) -> (r: Option<u128>)
    requires
        digit_count(text@) <= THRESHOLD_DIGIT_LIMIT,
    ensures
        r == humantime_duration_nanos(text@),
{
    match humantime::parse_duration(text) {
        Ok(d) => Some(d.as_nanos()),
        Err(_) => None,
    }
}

/// The `--notify-if-over` threshold in nanoseconds, when one was given and parses.
pub fn parse_threshold(input: &Option<String>) -> (r: Option<u128>)
    requires
        input matches Some(t) ==> digit_count(t@) <= THRESHOLD_DIGIT_LIMIT,
    ensures
        r == match input {
            Some(t) => humantime_duration_nanos(t@),
            None => None,
        },
{
    match input {
        Some(text) => parse_duration_nanos(text.as_str()),
        None => None,
    }
}

/// The platforms whose notification tools are known.
#[derive(Clone, Copy, PartialEq, Eq, Structural, Debug)]
pub enum Platform {
    MacOs,
    Linux,
    Other,
}

/// A program to start, with its arguments.
pub struct ExternalCommand {
    pub program: String,
    pub args: Vec<String>,
}

impl View for ExternalCommand {
    type V = (Seq<char>, Seq<Seq<char>>);

    open spec fn view(&self) -> (Seq<char>, Seq<Seq<char>>) {
        (self.program@, self.args@.map_values(|a: String| a@))
    }
}

/// One way of putting a notification on screen.
pub enum NotifyAttempt {
    /// The native macOS notifier helper, given the same title, body and outcome.
    NativeMacOs,
    /// A command whose success means the notification was shown.
    Run(ExternalCommand),
}

/// What a notification attempt stands for: `None` for the native helper, else the
/// command's view.
pub open spec fn attempt_view(a: NotifyAttempt) -> Option<(Seq<char>, Seq<Seq<char>>)> {
    match a {
        NotifyAttempt::NativeMacOs => None,
        NotifyAttempt::Run(c) => Some(c@),
    }
}

/// The AppleScript that posts a Notification Center banner.
pub open spec fn banner_script(title: Seq<char>, body: Seq<char>) -> Seq<char> {
    "display notification \""@ + quotes_softened(body) + "\" with title \""@ + quotes_softened(
        title,
    ) + "\""@
}

/// The AppleScript that shows a dialog which closes itself after five seconds.
pub open spec fn alert_script(title: Seq<char>, body: Seq<char>) -> Seq<char> {
    "display alert \""@ + quotes_softened(title) + "\" message \""@ + quotes_softened(body)
        + "\" as informational giving up after 5"@
}

/// The notification attempts for a platform, in the order they are tried.
pub open spec fn notification_attempts(title: Seq<char>, body: Seq<char>, platform: Platform) -> Seq<
    Option<(Seq<char>, Seq<Seq<char>>)>,
> {
    match platform {
        Platform::MacOs => seq![
            None,
            Some(("osascript"@, seq!["-e"@, banner_script(title, body)])),
            Some(("osascript"@, seq!["-e"@, alert_script(title, body)])),
        ],
        Platform::Linux => seq![Some(("notify-send"@, seq![title, body]))],
        Platform::Other => seq![],
    }
}

fn external_command(program: &str, args: Vec<String>) -> (r: ExternalCommand)
    ensures
        r.program@ == program@,
        r.args@ == args@,
{
    ExternalCommand { program: String::from_str(program), args }
}

fn string_pair(a: String, b: String) -> (r: Vec<String>)
    ensures
        r@ == seq![a, b],
{
    let mut r: Vec<String> = Vec::new();
    r.push(a);
    r.push(b);
    r
}

/// The ways to show a desktop notification with `title` and `body`, in the order they
/// are tried until one succeeds; the notification is shown when one of them succeeds.
pub fn show_desktop_notification(title: &str, body: &str, success: bool, platform: Platform) -> (r:
    Vec<NotifyAttempt>)
    ensures
        r@.map_values(|a: NotifyAttempt| attempt_view(a)) == notification_attempts(
            title@,
            body@,
            platform,
        ),
{
    let mut r: Vec<NotifyAttempt> = Vec::new();
    match platform {
        Platform::MacOs => {
            let soft_title = soften_quotes(title);
            let soft_body = soften_quotes(body);
            let mut banner = String::from_str("display notification \"");
            banner.append(soft_body.as_str());
            banner.append("\" with title \"");
            banner.append(soft_title.as_str());
            banner.append("\"");
            let mut alert = String::from_str("display alert \"");
            alert.append(soft_title.as_str());
            alert.append("\" message \"");
            alert.append(soft_body.as_str());
            alert.append("\" as informational giving up after 5");
            r.push(NotifyAttempt::NativeMacOs);
            let banner_args = string_pair(String::from_str("-e"), banner);
            let banner_cmd = external_command("osascript", banner_args);
            assert(banner_cmd@.1 =~= seq!["-e"@, banner_script(title@, body@)]);
            r.push(NotifyAttempt::Run(banner_cmd));
            let alert_args = string_pair(String::from_str("-e"), alert);
            let alert_cmd = external_command("osascript", alert_args);
            assert(alert_cmd@.1 =~= seq!["-e"@, alert_script(title@, body@)]);
            r.push(NotifyAttempt::Run(alert_cmd));
        },
        Platform::Linux => {
            let args = string_pair(String::from_str(title), String::from_str(body));
            let cmd = external_command("notify-send", args);
            assert(cmd@.1 =~= seq![title@, body@]);
            r.push(NotifyAttempt::Run(cmd));
        },
        Platform::Other => {},
    }
    assert(r@.map_values(|a: NotifyAttempt| attempt_view(a)) =~= notification_attempts(
        title@,
        body@,
        platform,
    ));
    r
}

/// A command to try for the notification sound; it is only tried when it names a file
/// that must exist and that file exists.
pub struct SoundAttempt {
    pub command: ExternalCommand,
    pub needs_file: Option<String>,
}

/// How to play the notification sound: the attempts in order, until one succeeds, and
/// otherwise this many terminal bells.
pub struct SoundPlan {
    pub attempts: Vec<SoundAttempt>,
    pub bells: u8,
}

/// What a sound attempt stands for: its command and the file it needs.
pub open spec fn sound_attempt_view(a: SoundAttempt) -> ((Seq<char>, Seq<Seq<char>>), Option<
    Seq<char>,
>) {
    (a.command@, match a.needs_file {
        Some(f) => Some(f@),
        None => None,
    })
}

/// The system sound played on macOS.
pub open spec fn macos_sound_file(success: bool) -> Seq<char> {
    if success {
        "/System/Library/Sounds/Hero.aiff"@
    } else {
        "/System/Library/Sounds/Basso.aiff"@
    }
}

/// The sound attempts for a platform, in order.
pub open spec fn sound_attempts(success: bool, platform: Platform) -> Seq<
    ((Seq<char>, Seq<Seq<char>>), Option<Seq<char>>),
> {
    match platform {
        Platform::MacOs => seq![
            (("afplay"@, seq![macos_sound_file(success)]), Some(macos_sound_file(success))),
            (("osascript"@, seq!["-e"@, if success {
                "beep 1"@
            } else {
                "beep 2"@
            }]), None),
        ],
        Platform::Linux => seq![
            (("canberra-gtk-play"@, seq!["-i"@, if success {
                "complete"@
            } else {
                "dialog-error"@
            }]), None),
        ],
        Platform::Other => seq![],
    }
}

/// How to play the sound for a finished run: one bell for success, two for failure
/// when no sound player succeeds.
pub fn notification_sound_plan(success: bool, platform: Platform) -> (r: SoundPlan)
    ensures
        r.attempts@.map_values(|a: SoundAttempt| sound_attempt_view(a)) == sound_attempts(
            success,
            platform,
        ),
        r.bells == if success {
            1u8
        } else {
            2u8
        },
{
    let mut attempts: Vec<SoundAttempt> = Vec::new();
    match platform {
        Platform::MacOs => {
            let file = if success {
                "/System/Library/Sounds/Hero.aiff"
            } else {
                "/System/Library/Sounds/Basso.aiff"
            };
            let mut play_args: Vec<String> = Vec::new();
            play_args.push(String::from_str(file));
            let play = external_command("afplay", play_args);
            assert(play@.1 =~= seq![macos_sound_file(success)]);
            attempts.push(SoundAttempt { command: play, needs_file: Some(String::from_str(file)) });
            let beep = if success {
                "beep 1"
            } else {
                "beep 2"
            };
            let beep_args = string_pair(String::from_str("-e"), String::from_str(beep));
            let beep_cmd = external_command("osascript", beep_args);
            assert(beep_cmd@.1 =~= seq!["-e"@, beep@]);
            attempts.push(SoundAttempt { command: beep_cmd, needs_file: None });
        },
        Platform::Linux => {
            let id = if success {
                "complete"
            } else {
                "dialog-error"
            };
            let args = string_pair(String::from_str("-i"), String::from_str(id));
            let cmd = external_command("canberra-gtk-play", args);
            assert(cmd@.1 =~= seq!["-i"@, id@]);
            attempts.push(SoundAttempt { command: cmd, needs_file: None });
        },
        Platform::Other => {},
    }
    assert(attempts@.map_values(|a: SoundAttempt| sound_attempt_view(a)) =~= sound_attempts(
        success,
        platform,
    ));
    SoundPlan {
        attempts,
        bells: if success {
            1
        } else {
            2
        },
    }
}

/// The sound plans tell success from failure: on Linux the event is "complete" for a
/// success and "dialog-error" for a failure; on macOS the sound file is Hero for a success
/// and Basso for a failure, and the fallback beeps once or twice.
pub proof fn law_sound_tells_outcome()
    ensures
        sound_attempts(true, Platform::Linux)[0].0.1 == seq!["-i"@, "complete"@],
        sound_attempts(false, Platform::Linux)[0].0.1 == seq!["-i"@, "dialog-error"@],
        sound_attempts(true, Platform::MacOs)[0].1 == Some("/System/Library/Sounds/Hero.aiff"@),
        sound_attempts(false, Platform::MacOs)[0].1 == Some("/System/Library/Sounds/Basso.aiff"@),
        sound_attempts(true, Platform::MacOs)[1].0.1 == seq!["-e"@, "beep 1"@],
        sound_attempts(false, Platform::MacOs)[1].0.1 == seq!["-e"@, "beep 2"@],
        sound_attempts(true, Platform::Linux) != sound_attempts(false, Platform::Linux),
        sound_attempts(true, Platform::MacOs) != sound_attempts(false, Platform::MacOs),
{
    reveal_strlit("complete");
    reveal_strlit("dialog-error");
    reveal_strlit("/System/Library/Sounds/Hero.aiff");
    reveal_strlit("/System/Library/Sounds/Basso.aiff");
    assert("complete"@.len() != "dialog-error"@.len());
    assert("/System/Library/Sounds/Hero.aiff"@ != "/System/Library/Sounds/Basso.aiff"@) by {
        assert("/System/Library/Sounds/Hero.aiff"@[24] != "/System/Library/Sounds/Basso.aiff"@[24]);
    }
    assert(sound_attempts(true, Platform::Linux)[0].0.1[1] != sound_attempts(false, Platform::Linux)[0].0.1[1]);
    assert(sound_attempts(true, Platform::MacOs)[0].1 != sound_attempts(false, Platform::MacOs)[0].1);
}

/// The arguments handed to the native macOS notifier helper.
pub open spec fn native_notifier_arguments(title: Seq<char>, body: Seq<char>, success: bool) -> Seq<
    Seq<char>,
> {
    seq!["--title"@, title, "--body"@, body, "--kind"@, if success {
        "success"@
    } else {
        "failure"@
    }]
}

/// The arguments handed to the native macOS notifier helper.
pub fn native_notifier_args(title: &str, body: &str, success: bool) -> (r: Vec<String>)
    ensures
        r@.map_values(|a: String| a@) == native_notifier_arguments(title@, body@, success),
{
    let mut r: Vec<String> = Vec::new();
    r.push(String::from_str("--title"));
    r.push(String::from_str(title));
    r.push(String::from_str("--body"));
    r.push(String::from_str(body));
    r.push(String::from_str("--kind"));
    r.push(
        String::from_str(
            if success {
                "success"
            } else {
                "failure"
            },
        ),
    );
    assert(r@.map_values(|a: String| a@) =~= native_notifier_arguments(title@, body@, success));
    r
}

/// The view of an optional string.
pub open spec fn opt_view(o: Option<String>) -> Option<Seq<char>> {
    match o {
        Some(s) => Some(s@),
        None => None,
    }
}

/// The notifier app bundle next to the working directory.
pub const NOTIFIER_APP_LOCAL: &'static str = "./notifier-macos/WooshhNotifier.app";

/// The notifier app bundle installed system-wide.
pub const NOTIFIER_APP_SYSTEM: &'static str = "/Applications/WooshhNotifier.app";

/// The notifier program inside the bundle next to the working directory.
pub const NOTIFIER_BIN_LOCAL: &'static str =
    "./notifier-macos/WooshhNotifier.app/Contents/MacOS/wooshh-notifier";

/// The notifier program inside the bundle installed system-wide.
pub const NOTIFIER_BIN_SYSTEM: &'static str =
    "/Applications/WooshhNotifier.app/Contents/MacOS/wooshh-notifier";

/// Launching the notifier app bundle `app` through `open`, when the bundle exists.
pub open spec fn app_launch(app: Seq<char>, title: Seq<char>, body: Seq<char>, success: bool) -> (
    (Seq<char>, Seq<Seq<char>>),
    Option<Seq<char>>,
) {
    (("open"@, seq![app, "--args"@] + native_notifier_arguments(title, body, success)), Some(app))
}

/// Running the notifier program `bin` directly, when it exists.
pub open spec fn bin_launch(bin: Seq<char>, title: Seq<char>, body: Seq<char>, success: bool) -> (
    (Seq<char>, Seq<Seq<char>>),
    Option<Seq<char>>,
) {
    ((bin, native_notifier_arguments(title, body, success)), Some(bin))
}

/// The ways to reach the native macOS notifier, in the order they are tried: the local
/// and the system-wide app bundle, then the one under the home directory (when known);
/// then the program named by `WOOSHH_NOTIFIER_PATH` (when set), then the local and the
/// system-wide program.
pub open spec fn native_launches(
    home_app: Option<Seq<char>>,
    env_path: Option<Seq<char>>,
    title: Seq<char>,
    body: Seq<char>,
    success: bool,
) -> Seq<((Seq<char>, Seq<Seq<char>>), Option<Seq<char>>)> {
    seq![
        app_launch(NOTIFIER_APP_LOCAL@, title, body, success),
        app_launch(NOTIFIER_APP_SYSTEM@, title, body, success),
    ] + match home_app {
        Some(a) => seq![app_launch(a, title, body, success)],
        None => seq![],
    } + match env_path {
        Some(b) => seq![bin_launch(b, title, body, success)],
        None => seq![],
    } + seq![
        bin_launch(NOTIFIER_BIN_LOCAL@, title, body, success),
        bin_launch(NOTIFIER_BIN_SYSTEM@, title, body, success),
    ]
}

fn app_launch_attempt(app: &str, title: &str, body: &str, success: bool) -> (r: SoundAttempt)
    ensures
        sound_attempt_view(r) == app_launch(app@, title@, body@, success),
{
    let mut args: Vec<String> = Vec::new();
    args.push(String::from_str(app));
    args.push(String::from_str("--args"));
    let mut rest = native_notifier_args(title, body, success);
    args.append(&mut rest);
    let cmd = external_command("open", args);
    assert(cmd@.1 =~= seq![app@, "--args"@] + native_notifier_arguments(title@, body@, success));
    SoundAttempt { command: cmd, needs_file: Some(String::from_str(app)) }
}

fn bin_launch_attempt(bin: &str, title: &str, body: &str, success: bool) -> (r: SoundAttempt)
    ensures
        sound_attempt_view(r) == bin_launch(bin@, title@, body@, success),
{
    let args = native_notifier_args(title, body, success);
    let cmd = external_command(bin, args);
    SoundAttempt { command: cmd, needs_file: Some(String::from_str(bin)) }
}

/// The ways to reach the native macOS notifier, in order; each is tried only when the
/// file it names exists, until one succeeds. `home_app` is the app bundle under the home
/// directory, `env_path` the program named by `WOOSHH_NOTIFIER_PATH`.
pub fn native_notifier_launches(
    home_app: Option<String>,
    env_path: Option<String>,
    title: &str,
    body: &str,
    success: bool,
) -> (r: Vec<SoundAttempt>)
    ensures
        r@.map_values(|a: SoundAttempt| sound_attempt_view(a)) == native_launches(
            opt_view(home_app),
            opt_view(env_path),
            title@,
            body@,
            success,
        ),
{
    let mut r: Vec<SoundAttempt> = Vec::new();
    r.push(app_launch_attempt(NOTIFIER_APP_LOCAL, title, body, success));
    r.push(app_launch_attempt(NOTIFIER_APP_SYSTEM, title, body, success));
    match &home_app {
        Some(a) => r.push(app_launch_attempt(a.as_str(), title, body, success)),
        None => {},
    }
    match &env_path {
        Some(b) => r.push(bin_launch_attempt(b.as_str(), title, body, success)),
        None => {},
    }
    r.push(bin_launch_attempt(NOTIFIER_BIN_LOCAL, title, body, success));
    r.push(bin_launch_attempt(NOTIFIER_BIN_SYSTEM, title, body, success));
    assert(r@.map_values(|a: SoundAttempt| sound_attempt_view(a)) =~= native_launches(
        opt_view(home_app),
        opt_view(env_path),
        title@,
        body@,
        success,
    ));
    r
}

/// The command an attempt launches, given whether the file it needs exists: the
/// attempt's command when it needs no file or its file exists, nothing otherwise.
pub fn attempt_launch(attempt: &SoundAttempt, file_exists: bool) -> (r: Option<&ExternalCommand>)
    ensures
        r == if attempt.needs_file is None || file_exists {
            Some(&attempt.command)
        } else {
            None
        },
{
    match &attempt.needs_file {
        None => Some(&attempt.command),
        Some(_) => if file_exists {
            Some(&attempt.command)
        } else {
            None
        },
    }
}

/// How far a list of attempts, tried in order until one succeeds, has got: how many were
/// tried, whether any of them was available (its file existed), and whether the last one
/// tried succeeded.
#[derive(Debug, PartialEq, Eq)]
pub struct AttemptProgress {
    pub tried: usize,
    pub found_any: bool,
    pub succeeded: bool,
}

/// Nothing tried yet.
pub fn attempts_started() -> (r: AttemptProgress)
    ensures
        r == (AttemptProgress { tried: 0, found_any: false, succeeded: false }),
{
    AttemptProgress { tried: 0, found_any: false, succeeded: false }
}

/// The attempt to make next, if any, among `total` attempts.
pub open spec fn next_attempt_of(progress: AttemptProgress, total: nat) -> Option<nat> {
    if progress.succeeded || progress.tried >= total {
        None
    } else {
        Some(progress.tried as nat)
    }
}

/// The attempt to make next among `total`: the next one in order, none once one succeeded
/// or all were tried.
pub fn next_attempt(progress: &AttemptProgress, total: usize) -> (r: Option<usize>)
    ensures
        match r {
            Some(i) => next_attempt_of(*progress, total as nat) == Some(i as nat),
            None => next_attempt_of(*progress, total as nat) is None,
        },
{
    if progress.succeeded || progress.tried >= total {
        None
    } else {
        Some(progress.tried)
    }
}

/// Records the outcome of the attempt just made: `None` when it launched nothing (its
/// file was missing), else whether the launch succeeded.
pub fn record_attempt(progress: &mut AttemptProgress, outcome: Option<bool>)
    requires
        !old(progress).succeeded,
        old(progress).tried < usize::MAX,
    ensures
        final(progress).tried == old(progress).tried + 1,
        final(progress).found_any == (old(progress).found_any || outcome is Some),
        final(progress).succeeded == (outcome == Some(true)),
{
    progress.tried = progress.tried + 1;
    progress.found_any = progress.found_any || outcome.is_some();
    progress.succeeded = match outcome {
        Some(ok) => ok,
        None => false,
    };
}

/// Attempts are made in order, one at a time; an attempt that launched nothing does not
/// end the search; and none is made after one succeeded.
pub proof fn law_attempts_in_order_until_success(progress: AttemptProgress, total: nat, outcome: Option<bool>)
    requires
        next_attempt_of(progress, total) is Some,
        progress.tried < usize::MAX,
    ensures
        next_attempt_of(progress, total) == Some(progress.tried as nat),
        ({
            let after = AttemptProgress {
                tried: (progress.tried + 1) as usize,
                found_any: progress.found_any || outcome is Some,
                succeeded: outcome == Some(true),
            };
            &&& outcome == Some(true) ==> next_attempt_of(after, total) is None
            &&& outcome is None && progress.tried + 1 < total ==> next_attempt_of(after, total)
                == Some((progress.tried + 1) as nat)
        }),
{
}

/// The warning printed when the native macOS notifier did not show the notification.
pub fn native_notifier_fallback_message(found_candidate: bool) -> (r: &'static str)
    ensures
        r@ == if found_candidate {
            "wooshh: native macOS notifier was found but failed; using AppleScript fallback"@
        } else {
            "wooshh: native macOS notifier not found; using AppleScript fallback"@
        },
{
    if found_candidate {
        "wooshh: native macOS notifier was found but failed; using AppleScript fallback"
    } else {
        "wooshh: native macOS notifier not found; using AppleScript fallback"
    }
}

/// The title of the notification for a finished run.
pub fn notification_title(success: bool) -> (r: &'static str)
    ensures
        r@ == if success {
            "wooshh: command finished"@
        } else {
            "wooshh: command failed"@
        },
{
    if success {
        "wooshh: command finished"
    } else {
        "wooshh: command failed"
    }
}

} // verus!
