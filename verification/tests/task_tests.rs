use earplugger::{
    deletion_result, generate_task_xml, parse_command, parse_options, schtasks_delete_failure_message,
    schtasks_failure_message, Command, TASK_NAME,
};

const ANY_FILTER: &str = " and *[EventData[(Data[@Name='flow']='0' or Data[@Name='flow']='1') and Data[@Name='NewState']='1']]";

/// The filter on the device names `names`, each given with its XPath literal.
fn device_filter(literals: &[&str]) -> String {
    let tests: Vec<String> = literals
        .iter()
        .map(|l| format!("Data[@Name='DeviceName']={}", l))
        .collect();
    format!(
        " and *[EventData[({}) and (Data[@Name='flow']='0' or Data[@Name='flow']='1') and Data[@Name='NewState']='1']]",
        tests.join(" or ")
    )
}

fn query(filter_clause: &str) -> String {
    format!(
        "<QueryList><Query Id=\"0\" Path=\"Microsoft-Windows-Audio/Operational\"><Select Path=\"Microsoft-Windows-Audio/Operational\">*[System[Provider[@Name='Microsoft-Windows-Audio'] and (EventID=65)]]{}</Select><Select Path=\"Microsoft-Windows-Audio/Operational\">*[System[Provider[@Name='Microsoft-Windows-Audio'] and (EventID=4)]]</Select></Query></QueryList>",
        filter_clause
    )
}

fn escape(s: &str) -> String {
    s.replace('&', "&amp;")
        .replace('<', "&lt;")
        .replace('>', "&gt;")
        .replace('"', "&quot;")
        .replace('\'', "&apos;")
}

const WAKE_QUERY: &str = "<QueryList><Query Id=\"0\" Path=\"System\"><Select Path=\"System\">*[System[Provider[@Name='Microsoft-Windows-Power-Troubleshooter'] and (EventID=1)]]</Select><Select Path=\"System\">*[System[Provider[@Name='Microsoft-Windows-Kernel-Power'] and (EventID=107 or EventID=507)]]</Select></Query></QueryList>";

/// The task XML with the wake trigger and no user.
fn expected_xml(exe_path: &str, filter_clause: &str, delay_ms: u64) -> String {
    expected_xml_for(exe_path, filter_clause, delay_ms, None, true)
}

/// The task XML written out the way the Task Scheduler template reads.
fn expected_xml_for(
    exe_path: &str,
    filter_clause: &str,
    delay_ms: u64,
    user: Option<&str>,
    wake: bool,
) -> String {
    let args = if delay_ms != 150 {
        format!("<Arguments>restart --delay-ms {} --silent</Arguments>", delay_ms)
    } else {
        "<Arguments>restart --silent</Arguments>".to_string()
    };
    let wake_trigger = if wake {
        format!(
            "\n    <EventTrigger>\n      <Enabled>true</Enabled>\n      <Subscription>{}</Subscription>\n    </EventTrigger>",
            escape(WAKE_QUERY)
        )
    } else {
        String::new()
    };
    let user_id = match user {
        Some(u) => format!("\n      <UserId>{}</UserId>", escape(u)),
        None => String::new(),
    };
    format!(
        r#"<?xml version="1.0" encoding="UTF-16"?>
<Task version="1.4" xmlns="http://schemas.microsoft.com/windows/2004/02/mit/task">
  <RegistrationInfo>
    <Description>Earplugger - Auto-restart Voicemeeter audio engine on USB/KVM reconnect</Description>
    <Author>Earplugger</Author>
  </RegistrationInfo>
  <Triggers>
    <EventTrigger>
      <Enabled>true</Enabled>
      <Subscription>{}</Subscription>
    </EventTrigger>{}
  </Triggers>
  <Principals>
    <Principal id="Author">{}
      <LogonType>InteractiveToken</LogonType>
      <RunLevel>LeastPrivilege</RunLevel>
    </Principal>
  </Principals>
  <Settings>
    <MultipleInstancesPolicy>IgnoreNew</MultipleInstancesPolicy>
    <DisallowStartIfOnBatteries>false</DisallowStartIfOnBatteries>
    <StopIfGoingOnBatteries>false</StopIfGoingOnBatteries>
    <AllowHardTerminate>true</AllowHardTerminate>
    <StartWhenAvailable>false</StartWhenAvailable>
    <RunOnlyIfNetworkAvailable>false</RunOnlyIfNetworkAvailable>
    <IdleSettings>
      <StopOnIdleEnd>false</StopOnIdleEnd>
      <RestartOnIdle>false</RestartOnIdle>
    </IdleSettings>
    <AllowStartOnDemand>true</AllowStartOnDemand>
    <Enabled>true</Enabled>
    <Hidden>true</Hidden>
    <RunOnlyIfIdle>false</RunOnlyIfIdle>
    <WakeToRun>false</WakeToRun>
    <ExecutionTimeLimit>PT{}S</ExecutionTimeLimit>
    <Priority>4</Priority>
  </Settings>
  <Actions Context="Author">
    <Exec>
      <Command>{}</Command>
      {}
    </Exec>
  </Actions>
</Task>"#,
        escape(&query(filter_clause)),
        wake_trigger,
        user_id,
        30 + delay_ms / 1000,
        escape(exe_path),
        args
    )
}

fn subscription_text(xml: &str) -> String {
    let start = xml.find("<Subscription>").unwrap() + "<Subscription>".len();
    let end = xml.find("</Subscription>").unwrap();
    xml[start..end]
        .replace("&apos;", "'")
        .replace("&quot;", "\"")
        .replace("&gt;", ">")
        .replace("&lt;", "<")
        .replace("&amp;", "&")
}

#[test]
fn task_xml_for_any_device_with_default_delay() {
    let xml = generate_task_xml(r"C:\Tools\earplugger.exe", None, 150, None, true);
    assert_eq!(xml, expected_xml(r"C:\Tools\earplugger.exe", ANY_FILTER, 150));
    assert!(xml.contains("<Arguments>restart --silent</Arguments>"));
    assert!(xml.contains("<ExecutionTimeLimit>PT30S</ExecutionTimeLimit>"));
    assert!(xml.contains("&lt;QueryList&gt;&lt;Query Id=&quot;0&quot;"));
}

#[test]
fn task_xml_for_a_device_with_custom_delay() {
    let xml = generate_task_xml(r"C:\earplugger.exe", Some("RODE NT-USB"), 250, None, true);
    assert_eq!(xml, expected_xml(r"C:\earplugger.exe", &device_filter(&["'RODE NT-USB'"]), 250));
    assert!(xml.contains("<Arguments>restart --delay-ms 250 --silent</Arguments>"));
    let sub = subscription_text(&xml);
    assert!(sub.contains("(Data[@Name='DeviceName']='RODE NT-USB')"));
    assert!(sub.contains("(EventID=4)"));
    assert!(sub.contains("(Data[@Name='flow']='0' or Data[@Name='flow']='1')"));
}

#[test]
fn time_limit_scales_with_the_delay() {
    for (delay, secs) in [(0u64, 30u64), (150, 30), (999, 30), (1000, 31), (12345, 42), (30000, 60)] {
        let xml = generate_task_xml("e.exe", None, delay, None, true);
        assert!(xml.contains(&format!("<ExecutionTimeLimit>PT{}S</ExecutionTimeLimit>", secs)));
    }
}

#[test]
fn executable_path_is_escaped() {
    let xml = generate_task_xml("C:/R&D/earplugger.exe", None, 150, None, true);
    assert!(xml.contains("<Command>C:/R&amp;D/earplugger.exe</Command>"));
}

#[test]
fn apostrophe_names_use_double_quoted_literals() {
    let xml = generate_task_xml("e.exe", Some("User's AirPods"), 150, None, true);
    assert_eq!(xml, expected_xml("e.exe", &device_filter(&["\"User's AirPods\""]), 150));
    assert!(subscription_text(&xml).contains("Data[@Name='DeviceName']=\"User's AirPods\""));
}

#[test]
fn composite_names_match_every_candidate() {
    let xml = generate_task_xml("e.exe", Some("Sennheiser 560S (2- RODE NT-USB)"), 150, None, true);
    let filter = device_filter(&[
        "'Sennheiser 560S (2- RODE NT-USB)'",
        "'RODE NT-USB'",
        "'2- RODE NT-USB'",
        "'Sennheiser 560S'",
    ]);
    assert_eq!(xml, expected_xml("e.exe", &filter, 150));
    let xml = generate_task_xml("e.exe", Some("Speakers (RODE NT-USB)"), 150, None, true);
    let filter = device_filter(&["'Speakers (RODE NT-USB)'", "'RODE NT-USB'"]);
    assert_eq!(xml, expected_xml("e.exe", &filter, 150));
    let xml = generate_task_xml("e.exe", Some("Speakers (RODE NT-USB) (1)"), 150, None, true);
    let filter = device_filter(&["'Speakers (RODE NT-USB) (1)'", "'RODE NT-USB'"]);
    assert_eq!(xml, expected_xml("e.exe", &filter, 150));
}

#[test]
fn task_xml_escapes_markup_in_the_device_name() {
    let dev = "A&B <x> \"q\"";
    let xml = generate_task_xml("e.exe", Some(dev), 0, None, true);
    assert_eq!(xml, expected_xml("e.exe", &device_filter(&["'A&B <x> \"q\"'"]), 0));
    let start = xml.find("<Subscription>").unwrap() + "<Subscription>".len();
    let end = xml.find("</Subscription>").unwrap();
    let sub = &xml[start..end];
    assert!(!sub.contains('<') && !sub.contains('>') && !sub.contains('"') && !sub.contains('\''));
    assert!(sub.contains("A&amp;B &lt;x&gt; &quot;q&quot;"));
}

#[test]
fn task_arguments_parse_back_to_the_delay() {
    for delay in [0u64, 1, 149, 150, 151, 250, 30000] {
        let xml = generate_task_xml("e.exe", None, delay, None, true);
        let start = xml.find("<Arguments>").unwrap() + "<Arguments>".len();
        let end = xml.find("</Arguments>").unwrap();
        let words: Vec<String> = xml[start..end].split(' ').map(|w| w.to_string()).collect();
        assert!(matches!(parse_command(&words), Command::Restart));
        let opts = parse_options(&words[1..]).unwrap();
        assert_eq!(opts.delay_ms, delay);
        assert_eq!(opts.device, None);
        assert!(opts.silent);
    }
}

#[test]
fn task_runs_as_the_given_user() {
    let xml = generate_task_xml("e.exe", None, 150, Some(r"DOMAIN\User"), true);
    assert_eq!(xml, expected_xml_for("e.exe", ANY_FILTER, 150, Some(r"DOMAIN\User"), true));
    assert!(xml.contains("<Principal id=\"Author\">\n      <UserId>DOMAIN\\User</UserId>\n      <LogonType>"));
    let xml = generate_task_xml("e.exe", None, 150, Some("Bob & <Co>"), true);
    assert!(xml.contains("<UserId>Bob &amp; &lt;Co&gt;</UserId>"));
    let xml = generate_task_xml("e.exe", None, 150, None, true);
    assert!(!xml.contains("<UserId>"));
}

#[test]
fn wake_trigger_is_added_unless_turned_off() {
    let with_wake = generate_task_xml("e.exe", Some("RODE NT-USB"), 300, None, true);
    assert_eq!(with_wake.matches("<EventTrigger>").count(), 2);
    assert!(with_wake.contains("(EventID=107 or EventID=507)"));
    assert!(with_wake.contains("Microsoft-Windows-Power-Troubleshooter&apos;] and (EventID=1)"));
    let without = generate_task_xml("e.exe", Some("RODE NT-USB"), 300, None, false);
    assert_eq!(
        without,
        expected_xml_for("e.exe", &device_filter(&["'RODE NT-USB'"]), 300, None, false)
    );
    assert_eq!(without.matches("<EventTrigger>").count(), 1);
    assert!(!without.contains("Kernel-Power"));
}

#[test]
fn task_name_is_fixed() {
    assert_eq!(TASK_NAME, "Earplugger_AutoRestart");
}

#[test]
fn schtasks_messages_trim_the_output() {
    assert_eq!(
        schtasks_failure_message("  out\r\n", "\tERROR: denied.\r\n"),
        "schtasks failed: out ERROR: denied."
    );
    assert_eq!(
        schtasks_delete_failure_message("\r\n", " ERROR: not found \n"),
        "schtasks delete failed:  ERROR: not found"
    );
    assert_eq!(
        schtasks_delete_failure_message("SUCCESS? no\n", ""),
        "schtasks delete failed: SUCCESS? no "
    );
}

#[test]
fn escaped_subscription_reads_back_to_the_query() {
    let dev = "A&amp; <b> \"c\"";
    let xml = generate_task_xml("e.exe", Some(dev), 150, None, true);
    assert_eq!(subscription_text(&xml), query(&device_filter(&["'A&amp; <b> \"c\"'"])));
}

#[test]
fn missing_task_is_no_deletion_failure() {
    assert_eq!(deletion_result(true, "SUCCESS", ""), Ok(()));
    assert_eq!(
        deletion_result(false, "", "ERROR: The system cannot find the file specified.\r\n"),
        Ok(())
    );
    assert_eq!(
        deletion_result(false, "", "ERROR: Access is denied. (0x80070005)\r\n"),
        Err("schtasks delete failed:  ERROR: Access is denied. (0x80070005)".to_string())
    );
    assert_eq!(
        deletion_result(false, "RPC 0x800706BA", ""),
        Err("schtasks delete failed: RPC 0x800706BA ".to_string())
    );
}

#[test]
fn control_characters_are_left_out_of_name_literals() {
    let xml = generate_task_xml("e.exe", Some("RODE\tNT\u{1}USB"), 150, None, true);
    let sub = subscription_text(&xml);
    assert!(sub.contains("(Data[@Name='DeviceName']='RODENTUSB')"));
    assert!(!sub.contains('\t'));
}
