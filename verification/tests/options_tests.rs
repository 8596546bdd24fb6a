use earplugger::{
    asks_for_help, check_device, check_user, is_wildcard_device_str, parse_options_for, OptionScope, parse_command, parse_options, Command,
    DEFAULT_DELAY_MS, MAX_DELAY_MS,
};

fn strings(args: &[&str]) -> Vec<String> {
    args.iter().map(|a| a.to_string()).collect()
}

#[test]
fn test_parse_options_defaults() {
    let args: Vec<String> = vec![];
    let opts = parse_options(&args).unwrap();
    assert_eq!(opts.delay_ms, DEFAULT_DELAY_MS);
    assert_eq!(opts.device, None);
}

#[test]
fn test_parse_options_custom_space() {
    let args = vec![
        "--delay-ms".to_string(),
        "120".to_string(),
        "--device".to_string(),
        "RODE NT-USB".to_string(),
    ];
    let opts = parse_options(&args).unwrap();
    assert_eq!(opts.delay_ms, 120);
    assert_eq!(opts.device, Some("RODE NT-USB".to_string()));
}

#[test]
fn test_parse_options_custom_equals() {
    let args = vec![
        "--delay-ms=250".to_string(),
        "--device=User's AirPods".to_string(),
    ];
    let opts = parse_options(&args).unwrap();
    assert_eq!(opts.delay_ms, 250);
    assert_eq!(opts.device, Some("User's AirPods".to_string()));
}

#[test]
fn test_parse_options_delay_bounds() {
    let args = vec!["--delay-ms=35000".to_string()];
    assert!(parse_options(&args).is_err());
}

#[test]
fn test_parse_options_unknown_flag() {
    let args = vec!["--unknown-flag".to_string()];
    assert!(parse_options(&args).is_err());
}

#[test]
fn default_delay_is_150() {
    assert_eq!(DEFAULT_DELAY_MS, 150);
    assert_eq!(MAX_DELAY_MS, 30000);
}

#[test]
fn delay_at_the_maximum_is_accepted() {
    let opts = parse_options(&strings(&["--delay-ms", "30000"])).unwrap();
    assert_eq!(opts.delay_ms, 30000);
    let opts = parse_options(&strings(&["--delay-ms=0"])).unwrap();
    assert_eq!(opts.delay_ms, 0);
}

#[test]
fn delay_above_the_maximum_names_the_value() {
    let err = parse_options(&strings(&["--delay-ms", "30001"])).err().unwrap();
    assert_eq!(err, "Delay value 30001ms exceeds maximum allowed threshold of 30000ms");
    let err = parse_options(&strings(&["--delay-ms=35000"])).err().unwrap();
    assert_eq!(err, "Delay value 35000ms exceeds maximum allowed threshold of 30000ms");
}

#[test]
fn invalid_delay_names_the_text() {
    let err = parse_options(&strings(&["--delay-ms", "12ms"])).err().unwrap();
    assert_eq!(err, "Invalid integer value '12ms' for --delay-ms");
    let err = parse_options(&strings(&["--delay-ms=-5"])).err().unwrap();
    assert_eq!(err, "Invalid integer value '-5' for --delay-ms");
    let err = parse_options(&strings(&["--delay-ms="])).err().unwrap();
    assert_eq!(err, "Invalid integer value '' for --delay-ms");
    let err = parse_options(&strings(&["--delay-ms", "99999999999999999999999"])).err().unwrap();
    assert_eq!(err, "Invalid integer value '99999999999999999999999' for --delay-ms");
}

#[test]
fn plus_sign_is_accepted_like_u64_parse() {
    let opts = parse_options(&strings(&["--delay-ms=+42"])).unwrap();
    assert_eq!(opts.delay_ms, 42);
}

#[test]
fn missing_values_are_errors() {
    let err = parse_options(&strings(&["--delay-ms"])).err().unwrap();
    assert_eq!(err, "Missing value for --delay-ms");
    let err = parse_options(&strings(&["--device"])).err().unwrap();
    assert_eq!(err, "Missing value for --device");
}

#[test]
fn unknown_option_is_named() {
    let err = parse_options(&strings(&["--device=X", "--bogus"])).err().unwrap();
    assert_eq!(err, "Unrecognized option: '--bogus'");
}

#[test]
fn later_options_override_earlier_ones() {
    let opts = parse_options(&strings(&[
        "--delay-ms", "100", "--device", "A", "--delay-ms=200", "--device=B",
    ]))
    .unwrap();
    assert_eq!(opts.delay_ms, 200);
    assert_eq!(opts.device, Some("B".to_string()));
}

#[test]
fn empty_device_value_is_kept() {
    let opts = parse_options(&strings(&["--device="])).unwrap();
    assert_eq!(opts.device, Some(String::new()));
}

#[test]
fn device_with_both_quotes_is_refused() {
    let err = parse_options(&strings(&["--device", "Bob's \"Mic\""])).err().unwrap();
    assert_eq!(
        err,
        "Invalid --device value Bob's \"Mic\": a name holding both ' and \" cannot be written in an event log query"
    );
    assert!(parse_options(&strings(&["--device=a'b\"c"])).is_err());
    let opts = parse_options(&strings(&["--device", "\"Quoted\" Mic"])).unwrap();
    assert_eq!(opts.device, Some("\"Quoted\" Mic".to_string()));
}

#[test]
fn device_with_a_control_character_is_refused() {
    for value in ["RODE\nNT-USB", "A\tB", "x\u{7f}", "\u{0}"] {
        let err = parse_options(&strings(&["--device", value])).err().unwrap();
        assert_eq!(err, "Invalid --device value: ASCII control characters are not allowed");
        let joined = format!("--device={}", value);
        assert!(parse_options(&strings(&[joined.as_str()])).is_err());
    }
    assert_eq!(check_device("Caf\u{e9} \u{85}"), Ok("Caf\u{e9} \u{85}".to_string()));
}

#[test]
fn a_refused_device_is_refused_even_when_overridden_later() {
    assert!(parse_options(&strings(&["--device", "A\nB", "--device", "C"])).is_err());
}

#[test]
fn commands_are_recognized() {
    assert!(matches!(parse_command(&[]), Command::DefaultRestart));
    assert!(matches!(parse_command(&strings(&["restart", "--delay-ms", "5"])), Command::Restart));
    assert!(matches!(parse_command(&strings(&["install"])), Command::Install));
    assert!(matches!(parse_command(&strings(&["uninstall"])), Command::Uninstall));
    assert!(matches!(parse_command(&strings(&["status"])), Command::Status));
    for w in ["version", "--version", "-v", "-V"] {
        assert!(matches!(parse_command(&strings(&[w])), Command::Version));
    }
    for w in ["help", "--help", "-h"] {
        assert!(matches!(parse_command(&strings(&[w])), Command::Help));
    }
    match parse_command(&strings(&["start"])) {
        Command::Unknown(w) => assert_eq!(w, "start"),
        _ => panic!("start is not a command"),
    }
}

#[test]
fn options_without_a_command_run_the_default_restart() {
    assert!(matches!(parse_command(&strings(&["--silent"])), Command::DefaultRestart));
    assert!(matches!(
        parse_command(&strings(&["--delay-ms", "5", "--silent"])),
        Command::DefaultRestart
    ));
    assert!(matches!(parse_command(&strings(&["-x"])), Command::DefaultRestart));
}

#[test]
fn defaults_of_the_other_options() {
    let opts = parse_options(&[]).unwrap();
    assert_eq!(opts.user, None);
    assert!(!opts.silent);
    assert!(opts.wake);
    assert!(!opts.disable_channel);
}

#[test]
fn flags_are_read() {
    let opts = parse_options(&strings(&["--silent", "--no-wake", "--disable-channel"])).unwrap();
    assert!(opts.silent);
    assert!(!opts.wake);
    assert!(opts.disable_channel);
    let opts = parse_options(&strings(&["--no-wake", "--wake"])).unwrap();
    assert!(opts.wake);
    let opts = parse_options(&strings(&["--wake", "--no-wake"])).unwrap();
    assert!(!opts.wake);
}

#[test]
fn user_is_read_in_both_forms() {
    let opts = parse_options(&strings(&["--user", "DOMAIN\\User"])).unwrap();
    assert_eq!(opts.user, Some("DOMAIN\\User".to_string()));
    let opts = parse_options(&strings(&["--user=Bob's \"PC\""])).unwrap();
    assert_eq!(opts.user, Some("Bob's \"PC\"".to_string()));
    let err = parse_options(&strings(&["--user"])).err().unwrap();
    assert_eq!(err, "Missing value for --user");
    let err = parse_options(&strings(&["--user", "a\tb"])).err().unwrap();
    assert_eq!(err, "Invalid --user value: ASCII control characters are not allowed");
    assert_eq!(check_user("x"), Ok("x".to_string()));
}

#[test]
fn wildcard_devices_are_kept_as_given() {
    for w in ["*", "any", "all", "-"] {
        let opts = parse_options(&strings(&["--device", w])).unwrap();
        assert_eq!(opts.device, Some(w.to_string()));
        assert!(is_wildcard_device_str(w));
    }
    assert!(!is_wildcard_device_str("ANY"));
    assert!(!is_wildcard_device_str("RODE NT-USB"));
}

#[test]
fn help_is_asked_anywhere_among_the_options() {
    assert!(asks_for_help(&strings(&["--help"])));
    assert!(asks_for_help(&strings(&["--device", "X", "-h"])));
    assert!(!asks_for_help(&strings(&["--device", "X"])));
    assert!(!asks_for_help(&strings(&["help"])));
    assert!(!asks_for_help(&[]));
}

#[test]
fn each_command_takes_its_own_options() {
    let opts = parse_options_for(OptionScope::Restart, &strings(&["--delay-ms", "20", "--silent"])).unwrap();
    assert_eq!(opts.delay_ms, 20);
    assert!(opts.silent);
    assert_eq!(
        parse_options_for(OptionScope::Restart, &strings(&["--device", "X"])).err().unwrap(),
        "Unrecognized option: '--device'"
    );
    assert_eq!(
        parse_options_for(OptionScope::Restart, &strings(&["--user=me"])).err().unwrap(),
        "Unrecognized option: '--user=me'"
    );
    let opts = parse_options_for(
        OptionScope::Install,
        &strings(&["--device", "--silent", "--user", "U", "--no-wake", "--delay-ms=9"]),
    )
    .unwrap();
    assert_eq!(opts.device, Some("--silent".to_string()));
    assert!(!opts.silent);
    assert_eq!(
        parse_options_for(OptionScope::Install, &strings(&["--disable-channel"])).err().unwrap(),
        "Unrecognized option: '--disable-channel'"
    );
    assert!(parse_options_for(OptionScope::Uninstall, &strings(&["--disable-channel"])).unwrap().disable_channel);
    assert_eq!(
        parse_options_for(OptionScope::Uninstall, &strings(&["--delay-ms", "5"])).err().unwrap(),
        "Unrecognized option: '--delay-ms'"
    );
    assert_eq!(
        parse_options_for(OptionScope::Uninstall, &strings(&["--delay-ms", "x"])).err().unwrap(),
        "Invalid integer value 'x' for --delay-ms"
    );
}
