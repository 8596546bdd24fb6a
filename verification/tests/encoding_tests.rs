use earplugger::{i32_to_decimal, utf16le_text};
use earplugger::{parse_u64, string_from_wide_buffer, to_wide, u64_to_decimal, utf16le_with_bom};

#[test]
fn to_wide_is_nul_terminated_utf16() {
    assert_eq!(to_wide(""), vec![0]);
    assert_eq!(to_wide("A\u{1F600}é"), vec![0x41, 0xD83D, 0xDE00, 0xE9, 0]);
    let s = r"C:\Program Files (x86)\VB\Voicemeeter\VoicemeeterRemote64.dll";
    let mut expected: Vec<u16> = s.encode_utf16().collect();
    expected.push(0);
    assert_eq!(to_wide(s), expected);
}

#[test]
fn task_file_bytes_are_utf16le_with_bom() {
    let xml = "<a>é\u{10348}</a>";
    let mut expected = vec![0xFF, 0xFE];
    for u in xml.encode_utf16() {
        expected.extend_from_slice(&u.to_le_bytes());
    }
    assert_eq!(utf16le_with_bom(xml), expected);
    assert_eq!(utf16le_with_bom(""), vec![0xFF, 0xFE]);
}

#[test]
fn wide_buffer_stops_at_nul() {
    let mut buf = [0u16; 16];
    for (i, u) in "RODE".encode_utf16().enumerate() {
        buf[i] = u;
    }
    buf[6] = 0x41;
    assert_eq!(string_from_wide_buffer(&buf), "RODE");
    assert_eq!(string_from_wide_buffer(&[0x41, 0x42]), "AB");
    assert_eq!(string_from_wide_buffer(&[]), "");
}

#[test]
fn wide_buffer_replaces_unpaired_surrogates() {
    let cases: [&[u16]; 5] = [
        &[0xD83D, 0xDE00, 0x41],
        &[0xD83D, 0x41],
        &[0xDE00, 0xD83D],
        &[0x41, 0xD800],
        &[0xDBFF, 0xDFFF, 0xFFFF],
    ];
    for units in cases {
        assert_eq!(string_from_wide_buffer(units), String::from_utf16_lossy(units));
    }
    assert_eq!(string_from_wide_buffer(&[0xD83D, 0x41]), "\u{FFFD}A");
}

#[test]
fn parse_u64_matches_std() {
    for t in [
        "0", "42", "+42", "-0", "+", "", " 1", "1 ", "007", "18446744073709551615",
        "18446744073709551616", "99999999999999999999", "1_000", "٣",
    ] {
        assert_eq!(parse_u64(t), t.parse::<u64>().ok(), "{:?}", t);
    }
}

#[test]
fn decimal_matches_to_string() {
    for n in [0u64, 7, 10, 150, 30000, 1234567890, u64::MAX] {
        assert_eq!(u64_to_decimal(n), n.to_string());
        assert_eq!(parse_u64(&u64_to_decimal(n)), Some(n));
    }
}

#[test]
fn signed_decimal_matches_to_string() {
    for v in [0i32, 5, -1, -64, 2147483647, i32::MIN] {
        assert_eq!(i32_to_decimal(v), v.to_string());
    }
}

#[test]
fn wide_buffer_reads_back_what_to_wide_wrote() {
    for s in ["", "RODE NT-USB", "Kopfhörer", "\u{1F3A7} Headset", r"C:\VB\VoicemeeterRemote64.dll"] {
        assert_eq!(string_from_wide_buffer(&to_wide(s)), s);
    }
}

#[test]
fn task_file_bytes_decode_back_to_the_xml() {
    let xml = "<Task>\u{1F3A7} é</Task>";
    let bytes = utf16le_with_bom(xml);
    let units: Vec<u16> = bytes[2..]
        .chunks(2)
        .map(|p| u16::from_le_bytes([p[0], p[1]]))
        .collect();
    assert_eq!(String::from_utf16(&units).unwrap(), xml);
}

#[test]
fn utf16le_output_with_a_byte_order_mark_is_decoded() {
    let bytes = utf16le_with_bom("<Task>\u{1F600}é</Task>");
    assert_eq!(utf16le_text(&bytes), Some("<Task>\u{1F600}é</Task>".to_string()));
    let mut odd = utf16le_with_bom("ab");
    odd.push(0x41);
    assert_eq!(utf16le_text(&odd), Some("ab".to_string()));
    assert_eq!(utf16le_text(&[0xFF, 0xFE, 0x00, 0xD8]), Some("\u{FFFD}".to_string()));
    assert_eq!(utf16le_text(b"plain"), None);
    assert_eq!(utf16le_text(&[0xFF]), None);
    assert_eq!(utf16le_text(&[0xFF, 0xFE]), Some(String::new()));
}
