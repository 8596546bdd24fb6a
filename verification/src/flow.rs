use vstd::prelude::*;

use crate::decimal::{decimal, write_decimal};
use crate::device::{
    a1_display, a1_filter, cleaned_device_name, device_filter_from_a1, is_unassigned_device,
};
use crate::options::{
    arg_texts, is_wildcard_device, is_wildcard_device_str, options_for, parse_options_for,
    OptionScope, ParsedArgs,
};
use crate::task::TASK_NAME;
use crate::text::equal_str;
use crate::text::{find, find_str, lines_of, text_lines};

verus! {

/// A line for the console: on standard output, or on standard error.
pub enum Line {
    Stdout(String),
    Stderr(String),
}

/// A line as a flag (`true` for standard error) and its text.
pub open spec fn line_view(l: Line) -> (bool, Seq<char>) {
    match l {
        Line::Stdout(s) => (false, s@),
        Line::Stderr(s) => (true, s@),
    }
}

/// The lines as flags and texts.
pub open spec fn lines_view(lines: Seq<Line>) -> Seq<(bool, Seq<char>)> {
    lines.map_values(|l: Line| line_view(l))
}

pub open spec fn out(s: Seq<char>) -> (bool, Seq<char>) {
    (false, s)
}

pub open spec fn err(s: Seq<char>) -> (bool, Seq<char>) {
    (true, s)
}

/// Appends a line for standard output.
fn say(lines: &mut Vec<Line>, s: String)
    ensures
        lines_view(final(lines)@) == lines_view(old(lines)@).push(out(s@)),
{
    let ghost before = lines@;
    lines.push(Line::Stdout(s));
    assert(lines_view(lines@) =~= lines_view(before).push(out(s@)));
}

/// Appends a line for standard error.
fn complain(lines: &mut Vec<Line>, s: String)
    ensures
        lines_view(final(lines)@) == lines_view(old(lines)@).push(err(s@)),
{
    let ghost before = lines@;
    lines.push(Line::Stderr(s));
    assert(lines_view(lines@) =~= lines_view(before).push(err(s@)));
}

/// `head` followed by `tail`, as a new string.
fn joined(head: &str, tail: &str) -> (r: String)
    ensures
        r@ == head@ + tail@,
{
    let mut r = String::from_str(head);
    r.append(tail);
    r
}

// ---------------------------------------------------------------------------
// restart

pub const RESTART_SKIPPED_MESSAGE: &'static str =
    "[earplugger] Voicemeeter process not detected. Audio engine restart skipped.";

pub const RESTART_DONE_MESSAGE: &'static str =
    "[earplugger] Successfully triggered Voicemeeter audio engine restart.";

pub const RESTART_ERROR_PREFIX: &'static str = "[earplugger] Error: ";

/// What the last step of a `restart` run found.
pub enum RestartEvent {
    /// The run starts.
    Begin,
    /// The settling delay has passed.
    Settled,
    /// Whether a Voicemeeter process runs.
    RunningChecked(bool),
    /// What restarting the audio engine gave.
    EngineRestarted(Result<(), String>),
}

/// What a `restart` run does next.
pub enum RestartStep {
    /// Wait this many milliseconds for the USB handshake to settle.
    Settle(u64),
    /// Look for a running Voicemeeter process.
    CheckRunning,
    /// Restart the Voicemeeter audio engine.
    RestartEngine,
    /// Print the lines and exit with the code.
    Finish(Vec<Line>, i32),
}

/// A `restart` run that could not read its options: the error, and exit code 1.
pub fn restart_options_failure(message: &str) -> (r: (Vec<Line>, i32))
    ensures
        lines_view(r.0@) == seq![err(RESTART_ERROR_PREFIX@ + message@)],
        r.1 == 1,
{
    let mut lines: Vec<Line> = Vec::new();
    complain(&mut lines, joined(RESTART_ERROR_PREFIX, message));
    (lines, 1)
}

/// Whether a `restart` run prints its outcome: only when the `restart`
/// command was given (not on the default run without a command) and
/// `--silent` was not.
pub fn restart_is_interactive(command_given: bool, opts: &ParsedArgs) -> (r: bool)
    ensures
        r == (command_given && !opts.silent),
{
    command_given && !opts.silent
}

/// The next step of a `restart` run with settling delay `delay_ms`, printing
/// its progress only when `interactive`: first look for Voicemeeter and stop at
/// once, without waiting, when it is not running; otherwise wait when the
/// delay is not zero, then restart, and exit with code 1 when the restart fails.
pub fn next_restart_step(delay_ms: u64, interactive: bool, event: RestartEvent) -> (r: RestartStep)
    ensures
        match event {
            RestartEvent::Begin => r is CheckRunning,
            RestartEvent::RunningChecked(true) => if delay_ms > 0 {
                r == RestartStep::Settle(delay_ms)
            } else {
                r is RestartEngine
            },
            RestartEvent::Settled => r is RestartEngine,
            RestartEvent::RunningChecked(false) => r matches RestartStep::Finish(lines, code) && code
                == 0 && lines_view(lines@) == if interactive {
                seq![out(RESTART_SKIPPED_MESSAGE@)]
            } else {
                Seq::empty()
            },
            RestartEvent::EngineRestarted(Ok(())) => r matches RestartStep::Finish(lines, code) && code
                == 0 && lines_view(lines@) == if interactive {
                seq![out(RESTART_DONE_MESSAGE@)]
            } else {
                Seq::empty()
            },
            RestartEvent::EngineRestarted(Err(e)) => r matches RestartStep::Finish(lines, code) && code
                == 1 && lines_view(lines@) == seq![err(RESTART_ERROR_PREFIX@ + e@)],
        },
{
    match event {
        RestartEvent::Begin => RestartStep::CheckRunning,
        RestartEvent::RunningChecked(true) => if delay_ms > 0 {
            RestartStep::Settle(delay_ms)
        } else {
            RestartStep::RestartEngine
        },
        RestartEvent::Settled => RestartStep::RestartEngine,
        RestartEvent::RunningChecked(false) => {
            let mut lines: Vec<Line> = Vec::new();
            assert(lines_view(lines@) =~= Seq::empty());
            if interactive {
                say(&mut lines, String::from_str(RESTART_SKIPPED_MESSAGE));
                assert(lines_view(lines@) =~= seq![out(RESTART_SKIPPED_MESSAGE@)]);
            }
            RestartStep::Finish(lines, 0)
        },
        RestartEvent::EngineRestarted(Ok(())) => {
            let mut lines: Vec<Line> = Vec::new();
            assert(lines_view(lines@) =~= Seq::empty());
            if interactive {
                say(&mut lines, String::from_str(RESTART_DONE_MESSAGE));
                assert(lines_view(lines@) =~= seq![out(RESTART_DONE_MESSAGE@)]);
            }
            RestartStep::Finish(lines, 0)
        },
        RestartEvent::EngineRestarted(Err(e)) => {
            let mut lines: Vec<Line> = Vec::new();
            assert(lines_view(lines@) =~= Seq::empty());
            complain(&mut lines, joined(RESTART_ERROR_PREFIX, e.as_str()));
            assert(lines_view(lines@) =~= seq![err(RESTART_ERROR_PREFIX@ + e@)]);
            RestartStep::Finish(lines, 1)
        },
    }
}

// ---------------------------------------------------------------------------
// install

pub const INSTALL_NOT_ADMIN_MESSAGE: &'static str =
    "[-] Administrator privileges are required to install scheduled tasks.";

pub const INSTALL_NOT_ADMIN_HINT: &'static str =
    "    Please run 'earplugger install' from an elevated terminal (Run as Administrator).";

pub const INSTALL_SUCCESS_MESSAGE: &'static str =
    "[+] Successfully installed Task Scheduler event trigger!";

pub const INSTALL_EVENT_LOG_LINE: &'static str = "    Event Log : Microsoft-Windows-Audio/Operational";

pub const INSTALL_EVENT_ID_LINE: &'static str =
    "    Event ID  : 65 (Audio device state changed to ACTIVE)";

pub const INSTALL_ANY_DEVICE_LINE: &'static str = "    Filter    : Any active audio endpoint";

pub const INSTALL_ACTIVE_MESSAGE: &'static str =
    "\nEarplugger is now active. Switching your KVM will automatically resync Voicemeeter.";

/// The line announcing the registration.
pub open spec fn registering_line() -> Seq<char> {
    "[*] Registering Task Scheduler trigger '"@ + TASK_NAME@ + "'..."@
}

/// The lines after a successful registration.
pub open spec fn installed_lines(device: Option<Seq<char>>, delay_ms: u64) -> Seq<(bool, Seq<char>)> {
    seq![
        out(INSTALL_SUCCESS_MESSAGE@),
        out(INSTALL_EVENT_LOG_LINE@),
        out(INSTALL_EVENT_ID_LINE@),
        out(
            match device {
                Some(d) => "    Filter    : DeviceName = '"@ + d + "'"@,
                None => INSTALL_ANY_DEVICE_LINE@,
            },
        ),
        out("    Delay     : "@ + decimal(delay_ms as nat) + "ms settle time"@),
        out(INSTALL_ACTIVE_MESSAGE@),
    ]
}

/// How the task is set up besides its device filter: the settling delay, the
/// user it runs as (whoever is logged on when `None`), and whether it also
/// runs on wake from sleep.
pub struct TaskOptions {
    pub delay_ms: u64,
    pub user: Option<String>,
    pub wake: bool,
}

/// The task options as plain values.
pub open spec fn task_view(t: TaskOptions) -> (u64, Option<Seq<char>>, bool) {
    (t.delay_ms, device_view(t.user), t.wake)
}

/// What an `install` run does next, after printing `lines`.
pub enum InstallStep {
    /// Read the device on Voicemeeter's hardware output A1; the task options
    /// are kept.
    ReadA1(Vec<Line>, TaskOptions),
    /// Register the task with this device filter and these options.
    Register(Vec<Line>, Option<String>, TaskOptions),
    /// Print the lines and exit with the code.
    Finish(Vec<Line>, i32),
}

/// The device as a view.
pub open spec fn device_view(d: Option<String>) -> Option<Seq<char>> {
    match d {
        Some(s) => Some(s@),
        None => None,
    }
}

/// The first step of `install` with options `args`, once it is known whether
/// the process has administrator rights: without them, or with options that do
/// not read or that belong to another command, it ends with code 1; with a device given it registers the task,
/// matching any device when the device is a wildcard (`*`, `any`, `all`, `-`);
/// without one it reads the device on A1 first.
pub fn install_after_admin_check(args: &[String], is_admin: bool) -> (r: InstallStep)
    ensures
        !is_admin ==> (r matches InstallStep::Finish(lines, code) && code == 1 && lines_view(lines@)
            == seq![err(INSTALL_NOT_ADMIN_MESSAGE@), err(INSTALL_NOT_ADMIN_HINT@)]),
        is_admin ==> match options_for(OptionScope::Install, arg_texts(args@)) {
            Err(e) => r matches InstallStep::Finish(lines, code) && code == 1 && lines_view(lines@)
                == seq![err("[-] Error: "@ + e)],
            Ok(v) => match v.device {
                None => r matches InstallStep::ReadA1(lines, t) && task_view(t) == (
                    v.delay,
                    v.user,
                    v.wake,
                ) && lines@.len() == 0,
                Some(dev) => r matches InstallStep::Register(lines, f, t) && task_view(t) == (
                    v.delay,
                    v.user,
                    v.wake,
                ) && device_view(f) == (if is_wildcard_device(dev) {
                    None
                } else {
                    Some(dev)
                }) && lines_view(lines@) == seq![out(registering_line())],
            },
        },
{
    let mut lines: Vec<Line> = Vec::new();
    assert(lines_view(lines@) =~= Seq::empty());
    if !is_admin {
        complain(&mut lines, String::from_str(INSTALL_NOT_ADMIN_MESSAGE));
        complain(&mut lines, String::from_str(INSTALL_NOT_ADMIN_HINT));
        assert(lines_view(lines@) =~= seq![err(INSTALL_NOT_ADMIN_MESSAGE@), err(INSTALL_NOT_ADMIN_HINT@)]);
        return InstallStep::Finish(lines, 1);
    }
    match parse_options_for(OptionScope::Install, args) {
        Err(e) => {
            complain(&mut lines, joined("[-] Error: ", e.as_str()));
            assert(lines_view(lines@) =~= seq![err("[-] Error: "@ + e@)]);
            InstallStep::Finish(lines, 1)
        },
        Ok(opts) => {
            let task = TaskOptions { delay_ms: opts.delay_ms, user: opts.user, wake: opts.wake };
            match opts.device {
                None => InstallStep::ReadA1(lines, task),
                Some(dev) => {
                    say(&mut lines, registering_message());
                    assert(lines_view(lines@) =~= seq![out(registering_line())]);
                    if is_wildcard_device_str(dev.as_str()) {
                        InstallStep::Register(lines, None, task)
                    } else {
                        InstallStep::Register(lines, Some(dev), task)
                    }
                },
            }
        },
    }
}

/// The line announcing the registration.
fn registering_message() -> (r: String)
    ensures
        r@ == registering_line(),
{
    let mut m = String::from_str("[*] Registering Task Scheduler trigger '");
    m.append(TASK_NAME);
    m.append("'...");
    m
}

/// The warning when the device on A1 gives no usable filter.
pub open spec fn unusable_a1_warning(a1: Seq<char>) -> Seq<char> {
    "[!] The A1 device name '"@ + a1
        + "' gives no usable filter; the trigger will match any active audio endpoint."@
}

/// The step of `install` once the device on A1 is known: an assigned device
/// whose cleaned name can be a filter becomes the filter; an assigned device
/// whose cleaned name is empty or cannot be a filter gives a warning and the
/// task matches any device, as it does when no device is assigned.
pub fn install_after_a1(a1: &str, task: TaskOptions) -> (r: InstallStep)
    ensures
        is_unassigned_device(a1@) ==> (r matches InstallStep::Register(lines, f, t) && t == task
            && f is None && lines_view(lines@) == seq![out(registering_line())]),
        !is_unassigned_device(a1@) && a1_filter(a1@) is Some ==> (r matches InstallStep::Register(
            lines,
            f,
            t,
        ) && t == task && device_view(f) == Some(cleaned_device_name(a1@)) && lines_view(lines@)
            == seq![
            out("[*] Auto-detected Voicemeeter A1 device: "@ + a1@),
            out("[*] Filtering trigger on device: '"@ + cleaned_device_name(a1@) + "'"@),
            out(registering_line()),
        ]),
        !is_unassigned_device(a1@) && a1_filter(a1@) is None ==> (r matches InstallStep::Register(
            lines,
            f,
            t,
        ) && t == task && f is None && lines_view(lines@) == seq![
            out("[*] Auto-detected Voicemeeter A1 device: "@ + a1@),
            err(unusable_a1_warning(a1@)),
            out(registering_line()),
        ]),
{
    let mut lines: Vec<Line> = Vec::new();
    assert(lines_view(lines@) =~= Seq::empty());
    let assigned = !(a1.unicode_len() == 0 || equal_str(a1, "-"));
    let filter = device_filter_from_a1(a1);
    match filter {
        Some(cleaned) => {
            say(&mut lines, joined("[*] Auto-detected Voicemeeter A1 device: ", a1));
            let mut m = String::from_str("[*] Filtering trigger on device: '");
            m.append(cleaned.as_str());
            m.append("'");
            say(&mut lines, m);
            say(&mut lines, registering_message());
            assert(lines_view(lines@) =~= seq![
                out("[*] Auto-detected Voicemeeter A1 device: "@ + a1@),
                out("[*] Filtering trigger on device: '"@ + cleaned_device_name(a1@) + "'"@),
                out(registering_line()),
            ]);
            InstallStep::Register(lines, Some(cleaned), task)
        },
        None => {
            if assigned {
                say(&mut lines, joined("[*] Auto-detected Voicemeeter A1 device: ", a1));
                let mut w = String::from_str("[!] The A1 device name '");
                w.append(a1);
                w.append("' gives no usable filter; the trigger will match any active audio endpoint.");
                complain(&mut lines, w);
                say(&mut lines, registering_message());
                assert(lines_view(lines@) =~= seq![
                    out("[*] Auto-detected Voicemeeter A1 device: "@ + a1@),
                    err(unusable_a1_warning(a1@)),
                    out(registering_line()),
                ]);
            } else {
                say(&mut lines, registering_message());
                assert(lines_view(lines@) =~= seq![out(registering_line())]);
            }
            InstallStep::Register(lines, None, task)
        },
    }
}

/// The last step of `install`: the summary of the trigger and exit code 0
/// when the task was registered, the error and exit code 1 otherwise.
pub fn install_after_registration(
    device: Option<&str>,
    delay_ms: u64,
    registered: Result<(), String>,
) -> (r: (Vec<Line>, i32))
    ensures
        match registered {
            Ok(()) => r.1 == 0 && lines_view(r.0@) == installed_lines(
                match device {
                    Some(d) => Some(d@),
                    None => None,
                },
                delay_ms,
            ),
            Err(e) => r.1 == 1 && lines_view(r.0@) == seq![err("[-] Installation failed: "@ + e@)],
        },
{
    let mut lines: Vec<Line> = Vec::new();
    assert(lines_view(lines@) =~= Seq::empty());
    match registered {
        Err(e) => {
            complain(&mut lines, joined("[-] Installation failed: ", e.as_str()));
            assert(lines_view(lines@) =~= seq![err("[-] Installation failed: "@ + e@)]);
            (lines, 1)
        },
        Ok(()) => {
            say(&mut lines, String::from_str(INSTALL_SUCCESS_MESSAGE));
            say(&mut lines, String::from_str(INSTALL_EVENT_LOG_LINE));
            say(&mut lines, String::from_str(INSTALL_EVENT_ID_LINE));
            match device {
                Some(dev) => {
                    let mut m = String::from_str("    Filter    : DeviceName = '");
                    m.append(dev);
                    m.append("'");
                    say(&mut lines, m);
                },
                None => {
                    say(&mut lines, String::from_str(INSTALL_ANY_DEVICE_LINE));
                },
            }
            let mut m = String::from_str("    Delay     : ");
            write_decimal(delay_ms, &mut m);
            m.append("ms settle time");
            say(&mut lines, m);
            say(&mut lines, String::from_str(INSTALL_ACTIVE_MESSAGE));
            assert(lines_view(lines@) =~= installed_lines(
                match device {
                    Some(d) => Some(d@),
                    None => None,
                },
                delay_ms,
            ));
            (lines, 0)
        },
    }
}

// ---------------------------------------------------------------------------
// uninstall

pub const UNINSTALL_NOT_ADMIN_MESSAGE: &'static str =
    "[-] Administrator privileges are required to remove scheduled tasks.";

pub const UNINSTALL_NOT_ADMIN_HINT: &'static str =
    "    Please run 'earplugger uninstall' from an elevated terminal (Run as Administrator).";

pub const UNINSTALL_SUCCESS_MESSAGE: &'static str =
    "[+] Successfully removed Task Scheduler event trigger.";

/// What an `uninstall` run does next, after printing the lines.
pub enum UninstallStep {
    /// Remove the task, then turn the audio event channel off when the flag is
    /// set.
    Remove(Vec<Line>, bool),
    /// Print the lines and exit with the code.
    Finish(Vec<Line>, i32),
}

/// The first step of `uninstall` with options `args`: without administrator
/// rights, or with options that do not read or that belong to another command,
/// it ends with code 1; otherwise it
/// announces the removal, and the channel is turned off after it when
/// `--disable-channel` was given.
pub fn uninstall_after_admin_check(args: &[String], is_admin: bool) -> (r: UninstallStep)
    ensures
        !is_admin ==> (r matches UninstallStep::Finish(lines, code) && code == 1 && lines_view(
            lines@,
        ) == seq![err(UNINSTALL_NOT_ADMIN_MESSAGE@), err(UNINSTALL_NOT_ADMIN_HINT@)]),
        is_admin ==> match options_for(OptionScope::Uninstall, arg_texts(args@)) {
            Err(e) => r matches UninstallStep::Finish(lines, code) && code == 1 && lines_view(lines@)
                == seq![err("[-] Error: "@ + e)],
            Ok(v) => r matches UninstallStep::Remove(lines, disable) && disable == v.disable_channel
                && lines_view(lines@) == seq![
                out("[*] Removing Task Scheduler trigger '"@ + TASK_NAME@ + "'..."@),
            ],
        },
{
    let mut lines: Vec<Line> = Vec::new();
    assert(lines_view(lines@) =~= Seq::empty());
    if !is_admin {
        complain(&mut lines, String::from_str(UNINSTALL_NOT_ADMIN_MESSAGE));
        complain(&mut lines, String::from_str(UNINSTALL_NOT_ADMIN_HINT));
        assert(lines_view(lines@) =~= seq![
            err(UNINSTALL_NOT_ADMIN_MESSAGE@),
            err(UNINSTALL_NOT_ADMIN_HINT@),
        ]);
        return UninstallStep::Finish(lines, 1);
    }
    match parse_options_for(OptionScope::Uninstall, args) {
        Err(e) => {
            complain(&mut lines, joined("[-] Error: ", e.as_str()));
            assert(lines_view(lines@) =~= seq![err("[-] Error: "@ + e@)]);
            UninstallStep::Finish(lines, 1)
        },
        Ok(opts) => {
            let mut m = String::from_str("[*] Removing Task Scheduler trigger '");
            m.append(TASK_NAME);
            m.append("'...");
            say(&mut lines, m);
            assert(lines_view(lines@) =~= seq![
                out("[*] Removing Task Scheduler trigger '"@ + TASK_NAME@ + "'..."@),
            ]);
            UninstallStep::Remove(lines, opts.disable_channel)
        },
    }
}

pub const CHANNEL_DISABLED_MESSAGE: &'static str =
    "[+] Disabled event channel Microsoft-Windows-Audio/Operational.";

/// The lines about the audio event channel: none when it was left alone, else
/// whether turning it off worked.
pub open spec fn channel_lines(channel: Option<Result<(), Seq<char>>>) -> Seq<(bool, Seq<char>)> {
    match channel {
        None => Seq::empty(),
        Some(Ok(())) => seq![out(CHANNEL_DISABLED_MESSAGE@)],
        Some(Err(e)) => seq![err("[-] Failed to disable event channel: "@ + e)],
    }
}

/// An optional outcome, its error taken by its text.
pub open spec fn outcome_view(c: Option<Result<(), String>>) -> Option<Result<(), Seq<char>>> {
    match c {
        Some(Ok(())) => Some(Ok(())),
        Some(Err(e)) => Some(Err(e@)),
        None => None,
    }
}

/// The last step of `uninstall`: whether the task was removed, then what
/// happened to the event channel (`None` when it was left alone); code 0 when
/// both worked, 1 otherwise.
pub fn uninstall_after_removal(removed: Result<(), String>, channel: Option<Result<(), String>>) -> (r: (
    Vec<Line>,
    i32,
))
    ensures
        lines_view(r.0@) == match removed {
            Ok(()) => seq![out(UNINSTALL_SUCCESS_MESSAGE@)],
            Err(e) => seq![err("[-] Uninstall failed: "@ + e@)],
        } + channel_lines(outcome_view(channel)),
        r.1 == (if removed is Ok && !(channel matches Some(Err(_))) {
            0i32
        } else {
            1i32
        }),
{
    let mut lines: Vec<Line> = Vec::new();
    assert(lines_view(lines@) =~= Seq::empty());
    let mut code: i32 = 0;
    match removed {
        Ok(()) => {
            say(&mut lines, String::from_str(UNINSTALL_SUCCESS_MESSAGE));
        },
        Err(e) => {
            complain(&mut lines, joined("[-] Uninstall failed: ", e.as_str()));
            code = 1;
        },
    }
    let ghost first = lines_view(lines@);
    let ghost cv = outcome_view(channel);
    match &channel {
        None => {},
        Some(Ok(())) => {
            say(&mut lines, String::from_str(CHANNEL_DISABLED_MESSAGE));
        },
        Some(Err(e)) => {
            complain(&mut lines, joined("[-] Failed to disable event channel: ", e.as_str()));
            code = 1;
        },
    }
    assert(lines_view(lines@) =~= first + channel_lines(cv));
    (lines, code)
}

// ---------------------------------------------------------------------------
// status

/// Number of lines of the task query shown in the status report.
pub const STATUS_TASK_LINES: usize = 6;

/// `p` occurs in `s`.
pub open spec fn contains_text(s: Seq<char>, p: Seq<char>) -> bool {
    find(s, p) is Some
}

/// The task definition turns the task or one of its triggers off.
pub open spec fn task_disabled(xml: Option<Seq<char>>) -> bool {
    match xml {
        Some(x) => contains_text(x, "<Enabled>false</Enabled>"@),
        None => false,
    }
}

/// Whether the configured triggers fire.
pub open spec fn trigger_state(disabled: bool) -> Seq<char> {
    if disabled {
        " (Disabled)"@
    } else {
        " (Active)"@
    }
}

/// The lines on the triggers that the task definition `xml` holds, when it
/// could be read.
pub open spec fn trigger_lines(xml: Option<Seq<char>>) -> Seq<Seq<char>> {
    match xml {
        None => Seq::empty(),
        Some(x) => seq![
            if contains_text(x, "(EventID=65)"@) {
                "  Audio reconnect : Events 65, 4"@ + trigger_state(task_disabled(xml))
            } else {
                "  Audio reconnect : Not configured"@
            },
            if contains_text(x, "EventID=107"@) {
                "  Sleep/resume : Events 1, 107, 507"@ + trigger_state(task_disabled(xml))
            } else {
                "  Sleep/resume : Not configured"@
            },
        ],
    }
}

/// The lines of the status report, from what was found: whether Voicemeeter
/// runs, where its library is, the device on A1 (read only when it runs), the
/// task query's output (`None` when it failed), the task definition (`None`
/// when it could not be read), and why the query failed for a task that is
/// registered (`None` when the task is not registered).
pub open spec fn status_lines(
    running: bool,
    dll: Option<Seq<char>>,
    a1: Seq<char>,
    task_info: Option<Seq<char>>,
    task_xml: Option<Seq<char>>,
    failure: Option<Seq<char>>,
) -> Seq<Seq<char>> {
    let head = seq![
        "=== Voicemeeter Status ==="@,
        "  Process running : "@ + if running {
            "YES"@
        } else {
            "NO"@
        },
        match dll {
            Some(p) => "  Remote API DLL  : "@ + p,
            None => "  Remote API DLL  : NOT FOUND"@,
        },
    ];
    let hardware = if running {
        seq![
            "  Hardware A1     : "@ + if is_unassigned_device(a1) {
                "None"@
            } else {
                a1
            },
        ]
    } else {
        Seq::empty()
    };
    let task = match task_info {
        Some(info) => {
            let shown = text_lines(info);
            let k = if shown.len() < STATUS_TASK_LINES {
                shown.len()
            } else {
                STATUS_TASK_LINES as nat
            };
            seq![
                "\n=== Task Scheduler Trigger Status ==="@,
                if task_disabled(task_xml) {
                    "  Task status     : REGISTERED (DISABLED)"@
                } else {
                    "  Task status     : REGISTERED & READY"@
                },
            ] + shown.take(k as int).map_values(|l: Seq<char>| "    "@ + l) + trigger_lines(task_xml)
        },
        None => match failure {
            Some(d) => seq![
                "\n=== Task Scheduler Trigger Status ==="@,
                "  Task status     : QUERY FAILED"@,
                "  Details         : "@ + d,
            ],
            None => seq![
                "\n=== Task Scheduler Trigger Status ==="@,
                "  Task status     : NOT REGISTERED"@,
                "  Run 'earplugger install' to activate."@,
            ],
        },
    };
    head + hardware + task
}

/// What the status report shows of the task query: its output when it
/// succeeded; its error when it failed although the task's definition file
/// exists (the query itself failed); nothing when it failed and there is no
/// such file (the task is not registered).
pub fn task_query_outcome(query: Result<String, String>, file_exists: bool) -> (r: (
    Option<String>,
    Option<String>,
))
    ensures
        match query {
            Ok(info) => r.0 == Some(info) && r.1 is None,
            Err(e) => r.0 is None && r.1 == if file_exists {
                Some(e)
            } else {
                None::<String>
            },
        },
{
    match query {
        Ok(info) => (Some(info), None),
        Err(e) => if file_exists {
            (None, Some(e))
        } else {
            (None, None)
        },
    }
}

/// The view of an optional text.
pub open spec fn text_view(t: Option<&str>) -> Option<Seq<char>> {
    match t {
        Some(x) => Some(x@),
        None => None,
    }
}

/// Whether `p` occurs in `s`.
fn contains_str(s: &str, p: &str) -> (r: bool)
    ensures
        r == contains_text(s@, p@),
{
    find_str(s, p).is_some()
}

/// The lines on the triggers of the task definition.
fn trigger_report(task_xml: Option<&str>) -> (r: Vec<String>)
    ensures
        r@.map_values(|l: String| l@) == trigger_lines(text_view(task_xml)),
{
    let mut r: Vec<String> = Vec::new();
    match task_xml {
        None => {
            assert(r@.map_values(|l: String| l@) =~= trigger_lines(text_view(task_xml)));
        },
        Some(x) => {
            let state = if contains_str(x, "<Enabled>false</Enabled>") {
                " (Disabled)"
            } else {
                " (Active)"
            };
            if contains_str(x, "(EventID=65)") {
                r.push(joined("  Audio reconnect : Events 65, 4", state));
            } else {
                r.push(String::from_str("  Audio reconnect : Not configured"));
            }
            if contains_str(x, "EventID=107") {
                r.push(joined("  Sleep/resume : Events 1, 107, 507", state));
            } else {
                r.push(String::from_str("  Sleep/resume : Not configured"));
            }
            assert(r@.map_values(|l: String| l@) =~= trigger_lines(text_view(task_xml)));
        },
    }
    r
}

/// The status report printed by `status`.
#[verifier::rlimit(50)]
#[verifier::spinoff_prover]
pub fn status_report(
    running: bool,
    dll: Option<&str>,
    a1: &str,
    task_info: Option<&str>,
    task_xml: Option<&str>,
    failure: Option<&str>,
) -> (r: Vec<String>)
    ensures
        r@.map_values(|l: String| l@) == status_lines(
            running,
            text_view(dll),
            a1@,
            text_view(task_info),
            text_view(task_xml),
            text_view(failure),
        ),
{
    let ghost dll_v = text_view(dll);
    let ghost info_v = text_view(task_info);
    let ghost xml_v = text_view(task_xml);
    let ghost failure_v = text_view(failure);
    let mut r: Vec<String> = Vec::new();
    r.push(String::from_str("=== Voicemeeter Status ==="));
    r.push(joined("  Process running : ", if running { "YES" } else { "NO" }));
    match dll {
        Some(p) => r.push(joined("  Remote API DLL  : ", p)),
        None => r.push(String::from_str("  Remote API DLL  : NOT FOUND")),
    }
    let ghost head = r@.map_values(|l: String| l@);
    if running {
        let shown = a1_display(a1);
        r.push(joined("  Hardware A1     : ", shown.as_str()));
    }
    let ghost upto_hardware = r@.map_values(|l: String| l@);
    proof {
        assert(head =~= seq![
            "=== Voicemeeter Status ==="@,
            "  Process running : "@ + if running {
                "YES"@
            } else {
                "NO"@
            },
            match dll_v {
                Some(p) => "  Remote API DLL  : "@ + p,
                None => "  Remote API DLL  : NOT FOUND"@,
            },
        ]);
        let hardware = if running {
            seq![
                "  Hardware A1     : "@ + if is_unassigned_device(a1@) {
                    "None"@
                } else {
                    a1@
                },
            ]
        } else {
            Seq::<Seq<char>>::empty()
        };
        assert(upto_hardware =~= head + hardware);
    }
    r.push(String::from_str("\n=== Task Scheduler Trigger Status ==="));
    match task_info {
        Some(info) => {
            let disabled = match task_xml {
                Some(x) => contains_str(x, "<Enabled>false</Enabled>"),
                None => false,
            };
            assert(disabled == task_disabled(xml_v));
            if disabled {
                r.push(String::from_str("  Task status     : REGISTERED (DISABLED)"));
            } else {
                r.push(String::from_str("  Task status     : REGISTERED & READY"));
            }
            let ghost status_line = if task_disabled(xml_v) {
                "  Task status     : REGISTERED (DISABLED)"@
            } else {
                "  Task status     : REGISTERED & READY"@
            };
            let lines = lines_of(info);
            let ghost before = r@;
            let mut j: usize = 0;
            while j < lines.len() && j < STATUS_TASK_LINES
                invariant
                    j <= lines@.len(),
                    j <= STATUS_TASK_LINES,
                    lines@.map_values(|l: String| l@) == text_lines(info@),
                    r@.len() == before.len() + j,
                    forall|t: int| 0 <= t < before.len() ==> r@[t] == before[t],
                    forall|t: int|
                        0 <= t < j ==> #[trigger] r@[before.len() + t]@ == "    "@ + lines@[t]@,
                decreases lines@.len() - j,
            {
                r.push(joined("    ", lines[j].as_str()));
                j = j + 1;
            }
            proof {
                let shown = text_lines(info@);
                let k = if shown.len() < STATUS_TASK_LINES {
                    shown.len()
                } else {
                    STATUS_TASK_LINES as nat
                };
                assert(j == k);
                assert(before.map_values(|l: String| l@) =~= upto_hardware + seq![
                    "\n=== Task Scheduler Trigger Status ==="@,
                    status_line,
                ]);
                assert forall|t: int| 0 <= t < j implies lines@[t]@ == shown[t] by {
                    assert(lines@.map_values(|l: String| l@)[t] == lines@[t]@);
                }
                let tail = shown.take(k as int).map_values(|l: Seq<char>| "    "@ + l);
                let whole = before.map_values(|l: String| l@) + tail;
                assert forall|i: int| 0 <= i < r@.len() implies r@.map_values(|l: String| l@)[i]
                    == whole[i] by {
                    if i >= before.len() {
                        let t = i - before.len();
                        assert(r@[before.len() + t]@ == "    "@ + lines@[t]@);
                        assert(tail[t] == "    "@ + shown.take(k as int)[t]);
                    }
                }
                assert(r@.map_values(|l: String| l@) =~= whole);
            }
            let ghost before_triggers = r@.map_values(|l: String| l@);
            let ghost shown = text_lines(info@);
            let ghost k = if shown.len() < STATUS_TASK_LINES {
                shown.len()
            } else {
                STATUS_TASK_LINES as nat
            };
            assert(before_triggers =~= upto_hardware + seq![
                "\n=== Task Scheduler Trigger Status ==="@,
                status_line,
            ] + shown.take(k as int).map_values(|l: Seq<char>| "    "@ + l));
            let mut more = trigger_report(task_xml);
            r.append(&mut more);
            assert(r@.map_values(|l: String| l@) =~= before_triggers + trigger_lines(xml_v));
            assert(r@.map_values(|l: String| l@) =~= upto_hardware + (seq![
                "\n=== Task Scheduler Trigger Status ==="@,
                status_line,
            ] + shown.take(k as int).map_values(|l: Seq<char>| "    "@ + l) + trigger_lines(xml_v)));
        },
        None => {
            match failure {
                Some(d) => {
                    r.push(String::from_str("  Task status     : QUERY FAILED"));
                    r.push(joined("  Details         : ", d));
                    assert(r@.map_values(|l: String| l@) =~= upto_hardware + seq![
                        "\n=== Task Scheduler Trigger Status ==="@,
                        "  Task status     : QUERY FAILED"@,
                        "  Details         : "@ + d@,
                    ]);
                },
                None => {
                    r.push(String::from_str("  Task status     : NOT REGISTERED"));
                    r.push(String::from_str("  Run 'earplugger install' to activate."));
                },
            }
        },
    }
    proof {
        assert(head =~= seq![
            "=== Voicemeeter Status ==="@,
            "  Process running : "@ + if running {
                "YES"@
            } else {
                "NO"@
            },
            match dll_v {
                Some(p) => "  Remote API DLL  : "@ + p,
                None => "  Remote API DLL  : NOT FOUND"@,
            },
        ]);
        assert(r@.map_values(|l: String| l@) =~= status_lines(
            running,
            dll_v,
            a1@,
            info_v,
            xml_v,
            failure_v,
        ));
    }
    r
}


/// While Voicemeeter runs, the fourth line of the status report names the
/// device on hardware output A1 exactly as Voicemeeter gives it, unless no
/// device is assigned (an empty name, or exactly `-`), when it says `None`; a
/// dash inside a name does not make it unassigned. While Voicemeeter does not
/// run, no A1 line is shown and the task section follows the library line.
pub proof fn lemma_status_shows_the_a1_name(
    dll: Option<Seq<char>>,
    a1: Seq<char>,
    task_info: Option<Seq<char>>,
    task_xml: Option<Seq<char>>,
    failure: Option<Seq<char>>,
)
    ensures
        status_lines(true, dll, a1, task_info, task_xml, failure).len() > 3,
        a1.len() > 0 && a1 != "-"@ ==> status_lines(true, dll, a1, task_info, task_xml, failure)[3]
            == "  Hardware A1     : "@ + a1,
        a1.len() == 0 || a1 == "-"@ ==> status_lines(true, dll, a1, task_info, task_xml, failure)[3]
            == "  Hardware A1     : "@ + "None"@,
        status_lines(false, dll, a1, task_info, task_xml, failure).len() > 3,
        status_lines(false, dll, a1, task_info, task_xml, failure)[3]
            == "\n=== Task Scheduler Trigger Status ==="@,
{
}

} // verus!
