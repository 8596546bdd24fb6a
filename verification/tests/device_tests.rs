use earplugger::{find_driver_prefix, hardware_name_after_prefix};
use earplugger::{a1_display, clean_device_name, device_filter_from_a1, trim_str, white_space};

#[test]
fn test_clean_device_name_driver_prefixes() {
    assert_eq!(
        clean_device_name("WDM: Speakers (Realtek(R) Audio)"),
        "Realtek(R) Audio"
    );
    assert_eq!(
        clean_device_name("MME: Headset Earphone (2- RODE NT-USB)"),
        "RODE NT-USB"
    );
    assert_eq!(
        clean_device_name("KS: Headphones (High Definition Audio Device)"),
        "High Definition Audio Device"
    );
    assert_eq!(
        clean_device_name("ASIO: Focusrite USB ASIO"),
        "Focusrite USB ASIO"
    );
}

#[test]
fn test_clean_device_name_no_parentheses() {
    assert_eq!(clean_device_name("DirectSound: Audio Out"), "Audio Out");
}

#[test]
fn prefix_with_a_space_is_not_a_driver_prefix() {
    assert_eq!(clean_device_name("My Device: Out"), "My Device: Out");
}

#[test]
fn empty_prefix_is_not_a_driver_prefix() {
    assert_eq!(clean_device_name(": Out"), ": Out");
}

#[test]
fn underscore_and_unicode_letters_make_a_driver_prefix() {
    assert_eq!(clean_device_name("Wave_RT: Out"), "Out");
    assert_eq!(clean_device_name("Gerät: Lautsprecher"), "Lautsprecher");
}

#[test]
fn closing_parenthesis_before_opening_one_keeps_the_name() {
    assert_eq!(clean_device_name("Out ) x ("), "Out ) x (");
    assert_eq!(clean_device_name("Out (x"), "Out (x");
}

#[test]
fn endpoint_index_is_stripped_even_when_empty() {
    assert_eq!(clean_device_name("12- Mic"), "Mic");
    assert_eq!(clean_device_name("- Mic"), "Mic");
    assert_eq!(clean_device_name("A2- Mic"), "A2- Mic");
}

#[test]
fn outer_white_space_is_removed() {
    assert_eq!(clean_device_name("  \t Speakers ( USB DAC )\u{3000}"), "USB DAC");
    assert_eq!(clean_device_name("   "), "");
}

#[test]
fn cleaned_name_is_a_trimmed_piece_of_the_raw_name() {
    for raw in [
        "WDM: Speakers (Realtek(R) Audio)",
        "MME: Headset Earphone (2- RODE NT-USB)",
        " x (  3-  y  ) ",
        "Sennheiser 560S (2- RODE NT-USB)",
    ] {
        let c = clean_device_name(raw);
        assert!(raw.contains(c.as_str()));
        assert_eq!(c.trim(), c);
    }
}

#[test]
fn trim_matches_std_trim() {
    for s in ["", "  a b  ", "\u{85}x\u{a0}", "\u{2028}\u{2029}", "\u{180e}y", "\r\n z\t"] {
        assert_eq!(trim_str(s), s.trim());
    }
}

#[test]
fn white_space_matches_std_is_whitespace() {
    for v in 0u32..0x11_0000 {
        if let Some(c) = char::from_u32(v) {
            assert_eq!(white_space(c), c.is_whitespace(), "U+{:04X}", v);
        }
    }
}

#[test]
fn unassigned_a1_gives_no_filter() {
    assert_eq!(device_filter_from_a1(""), None);
    assert_eq!(device_filter_from_a1("-"), None);
    assert_eq!(
        device_filter_from_a1("WDM: Speakers (Realtek(R) Audio)"),
        Some("Realtek(R) Audio".to_string())
    );
}

#[test]
fn a1_without_a_usable_name_gives_no_filter() {
    assert_eq!(device_filter_from_a1("Speakers ()"), None);
    assert_eq!(device_filter_from_a1("   "), None);
    assert_eq!(device_filter_from_a1("WDM: Bob's \"Mic\""), None);
    assert_eq!(device_filter_from_a1("WDM: Bob's Mic"), Some("Bob's Mic".to_string()));
}

#[test]
fn parentheses_are_opened_only_after_an_endpoint_role() {
    assert_eq!(clean_device_name("Intel(R) Display Audio"), "Intel(R) Display Audio");
    assert_eq!(clean_device_name("WDM: Intel(R) Display Audio"), "Intel(R) Display Audio");
    assert_eq!(clean_device_name("Sennheiser 560S (2- RODE NT-USB)"), "Sennheiser 560S (2- RODE NT-USB)");
    assert_eq!(clean_device_name("Microphone (USB Audio)"), "USB Audio");
    assert_eq!(clean_device_name("MME: Line In (Behringer UMC)"), "Behringer UMC");
    assert_eq!(clean_device_name("Lautsprecher (Realtek Audio)"), "Realtek Audio");
}

#[test]
fn duplicate_endpoint_suffix_is_dropped() {
    assert_eq!(clean_device_name("Speakers (RODE NT-USB) (1)"), "RODE NT-USB");
    assert_eq!(clean_device_name("WDM: Speakers (2- RODE NT-USB) (12)"), "RODE NT-USB");
    assert_eq!(clean_device_name("Focusrite USB (2)"), "Focusrite USB");
    assert_eq!(clean_device_name("Focusrite USB (x2)"), "Focusrite USB (x2)");
    assert_eq!(clean_device_name("Focusrite USB(2)"), "Focusrite USB(2)");
}

#[test]
fn a1_display_shows_none_when_unassigned() {
    assert_eq!(a1_display(""), "None");
    assert_eq!(a1_display("-"), "None");
    assert_eq!(a1_display("WDM: Speakers"), "WDM: Speakers");
}

#[test]
fn driver_prefix_is_found_before_the_first_colon_space() {
    assert_eq!(find_driver_prefix("WDM: Speakers"), Some(3));
    assert_eq!(find_driver_prefix("DirectSound: A: B"), Some(11));
    assert_eq!(find_driver_prefix("My Device: Out"), None);
    assert_eq!(find_driver_prefix(": Out"), None);
    assert_eq!(find_driver_prefix("Speakers"), None);
}

#[test]
fn hardware_name_follows_the_given_prefix() {
    assert_eq!(
        hardware_name_after_prefix("Headset Earphone (2- RODE NT-USB)", None),
        "RODE NT-USB"
    );
    assert_eq!(hardware_name_after_prefix("X: Speakers (DAC)", Some(1)), "DAC");
    assert_eq!(hardware_name_after_prefix("X: Speakers (DAC)", None), "X: Speakers (DAC)");
    assert_eq!(hardware_name_after_prefix("X:  3- Y ", Some(1)), "Y");
}
