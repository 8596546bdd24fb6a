use earplugger::{find_voicemeeter_dll, lists_voicemeeter_process, tasklist_shows_voicemeeter};
use earplugger::{dll_file_name, dll_search_list, first_found, install_folder_from_uninstall_string};
use earplugger::is_voicemeeter_image;
use std::cell::RefCell;

#[test]
fn tasklist_output_is_searched_case_insensitively() {
    let out = "\"System\",\"4\",\"Services\",\"0\",\"144 K\"\r\n\"VoiceMeeterPro_x64.exe\",\"812\",\"Console\",\"1\",\"40,112 K\"\r\n";
    assert!(tasklist_shows_voicemeeter(out));
    assert!(tasklist_shows_voicemeeter("\"VOICEMEETER8X64.EXE\""));
    assert!(!tasklist_shows_voicemeeter("\"notepad.exe\",\"100\""));
    assert!(!tasklist_shows_voicemeeter(""));
}

#[test]
fn process_names_are_matched_as_given() {
    assert!(lists_voicemeeter_process("voicemeeter.exe"));
    assert!(!lists_voicemeeter_process("VoiceMeeter.exe"));
    assert!(!lists_voicemeeter_process("voice meeter"));
}

fn wide(name: &str) -> Vec<u16> {
    let mut units: Vec<u16> = name.encode_utf16().collect();
    units.push(0);
    units.push(0x41);
    units
}

#[test]
fn process_images_are_matched_up_to_ascii_case() {
    for name in [
        "voicemeeter8x64.exe",
        "voicemeeter8.exe",
        "VoicemeeterPro_x64.exe",
        "voicemeeterpro.exe",
        "voicemeeter_x64.exe",
        "VOICEMEETER.EXE",
    ] {
        assert!(is_voicemeeter_image(&wide(name)), "{}", name);
    }
    for name in ["voicemeeter", "voicemeeter.exe.bak", "notepad.exe", "vοicemeeter.exe", ""] {
        assert!(!is_voicemeeter_image(&wide(name)), "{}", name);
    }
    let mut no_nul: Vec<u16> = "voicemeeter.exe".encode_utf16().collect();
    assert!(is_voicemeeter_image(&no_nul));
    no_nul.push(0x20);
    assert!(!is_voicemeeter_image(&no_nul));
}

fn strings(items: &[&str]) -> Vec<String> {
    items.iter().map(|s| s.to_string()).collect()
}

#[test]
fn dll_name_matches_the_bitness_of_the_build() {
    if usize::BITS == 64 {
        assert_eq!(dll_file_name(), "VoicemeeterRemote64.dll");
    } else {
        assert_eq!(dll_file_name(), "VoicemeeterRemote.dll");
    }
}

#[test]
fn dll_is_looked_for_in_install_folders_then_program_folders() {
    let list = dll_search_list(
        &strings(&[r"D:\Apps\Voicemeeter"]),
        &strings(&[r"C:\Program Files (x86)", r"C:\Program Files"]),
    );
    let name = dll_file_name();
    assert_eq!(
        list,
        vec![
            format!(r"D:\Apps\Voicemeeter\{}", name),
            format!(r"C:\Program Files (x86)\VB\Voicemeeter\{}", name),
            format!(r"C:\Program Files\VB\Voicemeeter\{}", name),
        ]
    );
    assert!(dll_search_list(&[], &[]).is_empty());
}

#[test]
fn dll_search_probes_the_candidates_in_order() {
    let asked: RefCell<Vec<String>> = RefCell::new(Vec::new());
    let found = find_voicemeeter_dll(&strings(&["A"]), &strings(&["B"]), |p: &String| {
        asked.borrow_mut().push(p.clone());
        false
    });
    assert_eq!(found, None);
    let name = dll_file_name();
    assert_eq!(
        *asked.borrow(),
        vec![format!(r"A\{}", name), format!(r"B\VB\Voicemeeter\{}", name)]
    );
}

#[test]
fn dll_search_takes_the_first_existing_candidate() {
    let name = dll_file_name();
    let second = format!(r"B\VB\Voicemeeter\{}", name);
    let found = find_voicemeeter_dll(&strings(&["A"]), &strings(&["B", "C"]), |p: &String| {
        p.starts_with('B') || p.starts_with('C')
    });
    assert_eq!(found, Some(second));
    let candidates = strings(&["x", "y", "z"]);
    let asked: RefCell<usize> = RefCell::new(0);
    let found = first_found(&candidates, |p: &String| {
        *asked.borrow_mut() += 1;
        p == "y"
    });
    assert_eq!(found, Some("y".to_string()));
    assert_eq!(*asked.borrow(), 2);
}

#[test]
fn install_folder_is_read_from_the_uninstall_command() {
    assert_eq!(
        install_folder_from_uninstall_string(
            "\"C:\\Program Files (x86)\\VB\\Voicemeeter\\voicemeeterprosetup.exe\" /uninstall"
        ),
        Some(r"C:\Program Files (x86)\VB\Voicemeeter".to_string())
    );
    assert_eq!(
        install_folder_from_uninstall_string(r"  C:\VB\Voicemeeter\Setup.EXE /u  "),
        Some(r"C:\VB\Voicemeeter".to_string())
    );
    assert_eq!(
        install_folder_from_uninstall_string(r"D:\Tools\my.exe.d\uninst.exe -x"),
        Some(r"D:\Tools".to_string())
    );
    assert_eq!(install_folder_from_uninstall_string("\"C:\\VB\\setup.exe"), None);
    assert_eq!(install_folder_from_uninstall_string(r"C:\VB\setup /u"), None);
    assert_eq!(install_folder_from_uninstall_string("setup.exe"), None);
    assert_eq!(install_folder_from_uninstall_string(r"\setup.exe"), None);
    assert_eq!(install_folder_from_uninstall_string(""), None);
}

use earplugger::{next_remote_action, RemoteAction, RemoteEvent, SessionKind};

const DLL: &str = r"C:\Program Files\VB\Voicemeeter\VoicemeeterRemote64.dll";

#[test]
fn session_without_library_fails_before_loading() {
    match next_remote_action(&SessionKind::Restart, "", RemoteEvent::Started(None)) {
        RemoteAction::Fail(m) => assert_eq!(
            m,
            format!("{} not found in standard installation directories", dll_file_name())
        ),
        _ => panic!("expected a failure"),
    }
    match next_remote_action(&SessionKind::Restart, DLL, RemoteEvent::Started(Some(DLL.to_string()))) {
        RemoteAction::LoadLibrary(p) => assert_eq!(p, DLL),
        _ => panic!("expected a load"),
    }
    match next_remote_action(&SessionKind::Restart, DLL, RemoteEvent::LibraryLoaded(false)) {
        RemoteAction::Fail(m) => assert_eq!(m, format!("Failed to load {}", DLL)),
        _ => panic!("expected a failure"),
    }
}

#[test]
fn session_frees_the_library_on_every_later_end() {
    assert!(matches!(
        next_remote_action(&SessionKind::Restart, DLL, RemoteEvent::LibraryLoaded(true)),
        RemoteAction::ResolveEntryPoints
    ));
    match next_remote_action(&SessionKind::Restart, DLL, RemoteEvent::EntryPointsResolved(false)) {
        RemoteAction::ReleaseAndFail(m) => {
            assert_eq!(m, "Failed to resolve Voicemeeter API entry points")
        }
        _ => panic!("expected release and failure"),
    }
    assert!(matches!(
        next_remote_action(&SessionKind::Restart, DLL, RemoteEvent::EntryPointsResolved(true)),
        RemoteAction::Login
    ));
    for code in [-1, -2, -64, i32::MIN, 2, 7, i32::MAX] {
        match next_remote_action(&SessionKind::Restart, DLL, RemoteEvent::LoginReturned(code)) {
            RemoteAction::LogoutReleaseAndFail(m) => {
                assert_eq!(m, format!("VBVMR_Login returned error code: {}", code))
            }
            _ => panic!("expected logout, release and failure"),
        }
    }
    match next_remote_action(&SessionKind::Restart, DLL, RemoteEvent::LoginReturned(1)) {
        RemoteAction::LogoutReleaseAndFail(m) => assert_eq!(
            m,
            "VBVMR_Login returned 1: the Voicemeeter application is not launched"
        ),
        _ => panic!("expected logout, release and failure"),
    }
    for kind in [SessionKind::Restart, SessionKind::ReadA1] {
        for code in [1, -3] {
            assert!(matches!(
                next_remote_action(&kind, DLL, RemoteEvent::LoginReturned(code)),
                RemoteAction::LogoutReleaseAndFail(_)
            ));
        }
    }
}

#[test]
fn restart_session_waits_for_the_command_to_be_taken() {
    let restart = SessionKind::Restart;
    assert!(matches!(
        next_remote_action(&restart, DLL, RemoteEvent::LoginReturned(0)),
        RemoteAction::SetParameter
    ));
    assert!(matches!(
        next_remote_action(&restart, DLL, RemoteEvent::ParameterSet),
        RemoteAction::PollDirty(10, 1)
    ));
    assert!(matches!(
        next_remote_action(&restart, DLL, RemoteEvent::DirtyPolled(0, 1)),
        RemoteAction::PollDirty(10, 2)
    ));
    assert!(matches!(
        next_remote_action(&restart, DLL, RemoteEvent::DirtyPolled(1, 3)),
        RemoteAction::LogoutReleaseAndFinish
    ));
    assert!(matches!(
        next_remote_action(&restart, DLL, RemoteEvent::DirtyPolled(-1, 3)),
        RemoteAction::LogoutReleaseAndFinish
    ));
    assert!(matches!(
        next_remote_action(&restart, DLL, RemoteEvent::DirtyPolled(0, 15)),
        RemoteAction::LogoutReleaseAndFinish
    ));
    assert!(matches!(
        next_remote_action(&restart, DLL, RemoteEvent::DirtyPolled(0, 14)),
        RemoteAction::PollDirty(10, 15)
    ));
}

#[test]
fn read_session_syncs_the_parameters_before_reading() {
    let read = SessionKind::ReadA1;
    assert!(matches!(
        next_remote_action(&read, DLL, RemoteEvent::LoginReturned(0)),
        RemoteAction::PollDirty(10, 1)
    ));
    assert!(matches!(
        next_remote_action(&read, DLL, RemoteEvent::DirtyPolled(1, 1)),
        RemoteAction::PollDirty(10, 2)
    ));
    assert!(matches!(
        next_remote_action(&read, DLL, RemoteEvent::DirtyPolled(0, 2)),
        RemoteAction::ReadParameter
    ));
    assert!(matches!(
        next_remote_action(&read, DLL, RemoteEvent::DirtyPolled(1, 15)),
        RemoteAction::ReadParameter
    ));
    assert!(matches!(
        next_remote_action(&read, DLL, RemoteEvent::ParameterRead),
        RemoteAction::LogoutReleaseAndFinish
    ));
}
