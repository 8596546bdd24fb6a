use earplugger::{generate_task_xml, task_query_outcome};
use earplugger::{
    install_after_a1, install_after_admin_check, install_after_registration, lines_of,
    next_restart_step, parse_options, restart_is_interactive, restart_options_failure,
    status_report, uninstall_after_admin_check,
    uninstall_after_removal, InstallStep, Line, RestartEvent, RestartStep, TaskOptions, UninstallStep,
};

fn strings(args: &[&str]) -> Vec<String> {
    args.iter().map(|a| a.to_string()).collect()
}

fn texts(lines: &[Line]) -> Vec<(bool, String)> {
    lines
        .iter()
        .map(|l| match l {
            Line::Stdout(s) => (false, s.clone()),
            Line::Stderr(s) => (true, s.clone()),
        })
        .collect()
}

fn task(delay_ms: u64) -> TaskOptions {
    TaskOptions { delay_ms, user: None, wake: true }
}

fn out(s: &str) -> (bool, String) {
    (false, s.to_string())
}

fn err(s: &str) -> (bool, String) {
    (true, s.to_string())
}

#[test]
fn restart_checks_for_voicemeeter_before_waiting() {
    assert!(matches!(next_restart_step(150, false, RestartEvent::Begin), RestartStep::CheckRunning));
    assert!(matches!(next_restart_step(0, true, RestartEvent::Begin), RestartStep::CheckRunning));
    assert!(matches!(
        next_restart_step(150, false, RestartEvent::RunningChecked(true)),
        RestartStep::Settle(150)
    ));
    assert!(matches!(
        next_restart_step(0, false, RestartEvent::RunningChecked(true)),
        RestartStep::RestartEngine
    ));
    assert!(matches!(next_restart_step(5, true, RestartEvent::Settled), RestartStep::RestartEngine));
}

#[test]
fn restart_is_skipped_when_voicemeeter_is_not_running() {
    match next_restart_step(150, true, RestartEvent::RunningChecked(false)) {
        RestartStep::Finish(lines, 0) => assert_eq!(
            texts(&lines),
            vec![out("[earplugger] Voicemeeter process not detected. Audio engine restart skipped.")]
        ),
        _ => panic!("expected a quiet finish"),
    }
    match next_restart_step(150, false, RestartEvent::RunningChecked(false)) {
        RestartStep::Finish(lines, 0) => assert!(lines.is_empty()),
        _ => panic!("expected a quiet finish"),
    }
    assert!(matches!(
        next_restart_step(0, false, RestartEvent::RunningChecked(true)),
        RestartStep::RestartEngine
    ));
}

#[test]
fn restart_reports_its_outcome() {
    match next_restart_step(0, true, RestartEvent::EngineRestarted(Ok(()))) {
        RestartStep::Finish(lines, 0) => assert_eq!(
            texts(&lines),
            vec![out("[earplugger] Successfully triggered Voicemeeter audio engine restart.")]
        ),
        _ => panic!("expected success"),
    }
    match next_restart_step(0, false, RestartEvent::EngineRestarted(Ok(()))) {
        RestartStep::Finish(lines, 0) => assert!(lines.is_empty()),
        _ => panic!("expected success"),
    }
    match next_restart_step(0, false, RestartEvent::EngineRestarted(Err("boom".to_string()))) {
        RestartStep::Finish(lines, 1) => {
            assert_eq!(texts(&lines), vec![err("[earplugger] Error: boom")])
        }
        _ => panic!("expected failure"),
    }
    let (lines, code) = restart_options_failure("Missing value for --delay-ms");
    assert_eq!(code, 1);
    assert_eq!(texts(&lines), vec![err("[earplugger] Error: Missing value for --delay-ms")]);
}

#[test]
fn install_needs_administrator_rights() {
    match install_after_admin_check(&[], false) {
        InstallStep::Finish(lines, 1) => assert_eq!(
            texts(&lines),
            vec![
                err("[-] Administrator privileges are required to install scheduled tasks."),
                err("    Please run 'earplugger install' from an elevated terminal (Run as Administrator)."),
            ]
        ),
        _ => panic!("expected refusal"),
    }
}

#[test]
fn install_reports_bad_options() {
    match install_after_admin_check(&strings(&["--delay-ms=x"]), true) {
        InstallStep::Finish(lines, 1) => assert_eq!(
            texts(&lines),
            vec![err("[-] Error: Invalid integer value 'x' for --delay-ms")]
        ),
        _ => panic!("expected an options error"),
    }
}

#[test]
fn install_with_a_device_registers_directly() {
    match install_after_admin_check(&strings(&["--device", "RODE NT-USB", "--delay-ms", "300"]), true) {
        InstallStep::Register(lines, device, t) if t.delay_ms == 300 && t.user.is_none() && t.wake => {
            assert_eq!(device, Some("RODE NT-USB".to_string()));
            assert_eq!(
                texts(&lines),
                vec![out("[*] Registering Task Scheduler trigger 'Earplugger_AutoRestart'...")]
            );
        }
        _ => panic!("expected registration"),
    }
}

#[test]
fn install_without_a_device_reads_a1() {
    match install_after_admin_check(&[], true) {
        InstallStep::ReadA1(lines, t) if t.delay_ms == 150 && t.user.is_none() && t.wake => {
            assert!(lines.is_empty())
        }
        _ => panic!("expected an A1 read"),
    }
    match install_after_a1("MME: Headset Earphone (2- RODE NT-USB)", task(150)) {
        InstallStep::Register(lines, device, t) if t.delay_ms == 150 => {
            assert_eq!(device, Some("RODE NT-USB".to_string()));
            assert_eq!(
                texts(&lines),
                vec![
                    out("[*] Auto-detected Voicemeeter A1 device: MME: Headset Earphone (2- RODE NT-USB)"),
                    out("[*] Filtering trigger on device: 'RODE NT-USB'"),
                    out("[*] Registering Task Scheduler trigger 'Earplugger_AutoRestart'..."),
                ]
            );
        }
        _ => panic!("expected registration"),
    }
    for a1 in ["", "-"] {
        match install_after_a1(a1, task(75)) {
            InstallStep::Register(lines, None, t) if t.delay_ms == 75 => assert_eq!(
                texts(&lines),
                vec![out("[*] Registering Task Scheduler trigger 'Earplugger_AutoRestart'...")]
            ),
            _ => panic!("expected registration for any device"),
        }
    }
}

#[test]
fn install_falls_back_to_any_device_when_a1_gives_no_filter() {
    for a1 in ["Speakers ()", "MME: Headphones ( )", "   ", "WDM: Bob's \"Mic\""] {
        match install_after_a1(a1, task(150)) {
            InstallStep::Register(lines, None, t) if t.delay_ms == 150 => assert_eq!(
                texts(&lines),
                vec![
                    out(&format!("[*] Auto-detected Voicemeeter A1 device: {}", a1)),
                    err(&format!(
                        "[!] The A1 device name '{}' gives no usable filter; the trigger will match any active audio endpoint.",
                        a1
                    )),
                    out("[*] Registering Task Scheduler trigger 'Earplugger_AutoRestart'..."),
                ]
            ),
            _ => panic!("expected registration for any device"),
        }
    }
}

#[test]
fn install_summarizes_the_trigger() {
    let (lines, code) = install_after_registration(Some("RODE NT-USB"), 250, Ok(()));
    assert_eq!(code, 0);
    assert_eq!(
        texts(&lines),
        vec![
            out("[+] Successfully installed Task Scheduler event trigger!"),
            out("    Event Log : Microsoft-Windows-Audio/Operational"),
            out("    Event ID  : 65 (Audio device state changed to ACTIVE)"),
            out("    Filter    : DeviceName = 'RODE NT-USB'"),
            out("    Delay     : 250ms settle time"),
            out("\nEarplugger is now active. Switching your KVM will automatically resync Voicemeeter."),
        ]
    );
    let (lines, _) = install_after_registration(None, 150, Ok(()));
    assert_eq!(texts(&lines)[3], out("    Filter    : Any active audio endpoint"));
    let (lines, code) = install_after_registration(None, 150, Err("schtasks failed: x y".to_string()));
    assert_eq!(code, 1);
    assert_eq!(texts(&lines), vec![err("[-] Installation failed: schtasks failed: x y")]);
}

#[test]
fn uninstall_steps() {
    match uninstall_after_admin_check(&[], false) {
        UninstallStep::Finish(lines, 1) => assert_eq!(
            texts(&lines),
            vec![
                err("[-] Administrator privileges are required to remove scheduled tasks."),
                err("    Please run 'earplugger uninstall' from an elevated terminal (Run as Administrator)."),
            ]
        ),
        _ => panic!("expected refusal"),
    }
    match uninstall_after_admin_check(&[], true) {
        UninstallStep::Remove(lines, false) => assert_eq!(
            texts(&lines),
            vec![out("[*] Removing Task Scheduler trigger 'Earplugger_AutoRestart'...")]
        ),
        _ => panic!("expected removal"),
    }
    let (lines, code) = uninstall_after_removal(Ok(()), None);
    assert_eq!(code, 0);
    assert_eq!(texts(&lines), vec![out("[+] Successfully removed Task Scheduler event trigger.")]);
    let (lines, code) = uninstall_after_removal(Err("schtasks delete failed: no".to_string()), None);
    assert_eq!(code, 1);
    assert_eq!(texts(&lines), vec![err("[-] Uninstall failed: schtasks delete failed: no")]);
}

#[test]
fn uninstall_can_turn_the_event_channel_off() {
    match uninstall_after_admin_check(&strings(&["--disable-channel"]), true) {
        UninstallStep::Remove(lines, true) => assert_eq!(
            texts(&lines),
            vec![out("[*] Removing Task Scheduler trigger 'Earplugger_AutoRestart'...")]
        ),
        _ => panic!("expected removal with the channel turned off"),
    }
    match uninstall_after_admin_check(&strings(&["--bogus"]), true) {
        UninstallStep::Finish(lines, 1) => {
            assert_eq!(texts(&lines), vec![err("[-] Error: Unrecognized option: '--bogus'")])
        }
        _ => panic!("expected an options error"),
    }
    let (lines, code) = uninstall_after_removal(Ok(()), Some(Ok(())));
    assert_eq!(code, 0);
    assert_eq!(
        texts(&lines),
        vec![
            out("[+] Successfully removed Task Scheduler event trigger."),
            out("[+] Disabled event channel Microsoft-Windows-Audio/Operational."),
        ]
    );
    let (lines, code) = uninstall_after_removal(Ok(()), Some(Err("Access is denied.".to_string())));
    assert_eq!(code, 1);
    assert_eq!(
        texts(&lines),
        vec![
            out("[+] Successfully removed Task Scheduler event trigger."),
            err("[-] Failed to disable event channel: Access is denied."),
        ]
    );
    let (lines, code) =
        uninstall_after_removal(Err("schtasks delete failed: x".to_string()), Some(Ok(())));
    assert_eq!(code, 1);
    assert_eq!(lines.len(), 2);
}

#[test]
fn install_refuses_options_of_other_commands() {
    match install_after_admin_check(&strings(&["--silent"]), true) {
        InstallStep::Finish(lines, 1) => assert_eq!(
            texts(&lines),
            vec![err("[-] Error: Unrecognized option: '--silent'")]
        ),
        _ => panic!("expected an options error"),
    }
    match uninstall_after_admin_check(&strings(&["--device", "X"]), true) {
        UninstallStep::Finish(lines, 1) => assert_eq!(
            texts(&lines),
            vec![err("[-] Error: Unrecognized option: '--device'")]
        ),
        _ => panic!("expected an options error"),
    }
}

#[test]
fn install_with_a_wildcard_device_matches_any_device() {
    for dev in ["*", "any", "all", "-"] {
        match install_after_admin_check(&strings(&["--device", dev]), true) {
            InstallStep::Register(lines, None, t) if t.delay_ms == 150 => assert_eq!(
                texts(&lines),
                vec![out("[*] Registering Task Scheduler trigger 'Earplugger_AutoRestart'...")]
            ),
            _ => panic!("expected registration for any device"),
        }
    }
}

#[test]
fn install_passes_user_and_wake_choice_on() {
    match install_after_admin_check(&strings(&["--user", "DOMAIN\\User", "--no-wake"]), true) {
        InstallStep::ReadA1(lines, t) => {
            assert!(lines.is_empty());
            assert_eq!(t.delay_ms, 150);
            assert_eq!(t.user, Some("DOMAIN\\User".to_string()));
            assert!(!t.wake);
        }
        _ => panic!("expected an A1 read"),
    }
}

#[test]
fn restart_is_quiet_when_silent_or_run_by_default() {
    let loud = parse_options(&[]).unwrap();
    let quiet = parse_options(&strings(&["--silent"])).unwrap();
    assert!(restart_is_interactive(true, &loud));
    assert!(!restart_is_interactive(true, &quiet));
    assert!(!restart_is_interactive(false, &loud));
    assert!(!restart_is_interactive(false, &quiet));
}

#[test]
fn lines_of_matches_str_lines() {
    for s in ["", "a", "a\n", "a\r\nb", "foo\r\nbar\n\nbaz\r", "\n", "\r\n\r\n", "x\ny\nz"] {
        let expected: Vec<String> = s.lines().map(|l| l.to_string()).collect();
        assert_eq!(lines_of(s), expected, "{:?}", s);
    }
}

#[test]
fn status_report_when_running_and_registered() {
    let info = "Folder: \\\r\nHostName: PC\r\nTaskName: \\Earplugger_AutoRestart\r\nNext Run Time: N/A\r\nStatus: Ready\r\nLogon Mode: Interactive only\r\nAuthor: Earplugger";
    let report = status_report(true, Some(r"C:\VB\VoicemeeterRemote64.dll"), "-", Some(info), None, None);
    assert_eq!(
        report,
        vec![
            "=== Voicemeeter Status ===",
            "  Process running : YES",
            r"  Remote API DLL  : C:\VB\VoicemeeterRemote64.dll",
            "  Hardware A1     : None",
            "\n=== Task Scheduler Trigger Status ===",
            "  Task status     : REGISTERED & READY",
            "    Folder: \\",
            "    HostName: PC",
            "    TaskName: \\Earplugger_AutoRestart",
            "    Next Run Time: N/A",
            "    Status: Ready",
            "    Logon Mode: Interactive only",
        ]
    );
}

#[test]
fn status_report_when_stopped_and_unregistered() {
    let report = status_report(false, None, "ignored", None, None, None);
    assert_eq!(
        report,
        vec![
            "=== Voicemeeter Status ===",
            "  Process running : NO",
            "  Remote API DLL  : NOT FOUND",
            "\n=== Task Scheduler Trigger Status ===",
            "  Task status     : NOT REGISTERED",
            "  Run 'earplugger install' to activate.",
        ]
    );
}

#[test]
fn status_report_reads_the_triggers_of_the_task() {
    let info = "TaskName: \\Earplugger_AutoRestart\r\nStatus: Ready";
    let xml = generate_task_xml("e.exe", None, 150, None, true);
    let report = status_report(false, None, "", Some(info), Some(&xml), None);
    assert_eq!(
        report[3..].to_vec(),
        vec![
            "\n=== Task Scheduler Trigger Status ===",
            "  Task status     : REGISTERED & READY",
            "    TaskName: \\Earplugger_AutoRestart",
            "    Status: Ready",
            "  Audio reconnect : Events 65, 4 (Active)",
            "  Sleep/resume : Events 1, 107, 507 (Active)",
        ]
    );
    let xml = generate_task_xml("e.exe", None, 150, None, false);
    let report = status_report(false, None, "", Some(info), Some(&xml), None);
    assert_eq!(report.last().unwrap(), "  Sleep/resume : Not configured");
    let disabled = xml.replacen("<Enabled>true</Enabled>", "<Enabled>false</Enabled>", 1);
    let report = status_report(false, None, "", Some(info), Some(&disabled), None);
    assert_eq!(report[4], "  Task status     : REGISTERED (DISABLED)");
    assert_eq!(report[7], "  Audio reconnect : Events 65, 4 (Disabled)");
}

#[test]
fn status_report_explains_a_failed_query() {
    let report = status_report(false, None, "", None, None, Some("ERROR: Access is denied."));
    assert_eq!(
        report[3..].to_vec(),
        vec![
            "\n=== Task Scheduler Trigger Status ===",
            "  Task status     : QUERY FAILED",
            "  Details         : ERROR: Access is denied.",
        ]
    );
}

#[test]
fn failed_query_of_an_existing_task_is_reported() {
    assert_eq!(
        task_query_outcome(Ok("Status: Ready".to_string()), false),
        (Some("Status: Ready".to_string()), None)
    );
    assert_eq!(
        task_query_outcome(Err("ERROR: denied".to_string()), true),
        (None, Some("ERROR: denied".to_string()))
    );
    assert_eq!(task_query_outcome(Err("ERROR: none".to_string()), false), (None, None));
}
