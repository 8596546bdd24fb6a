use vstd::prelude::*;

use crate::decimal::{i32_to_decimal, signed_decimal};
use crate::text::{find, find_str, rfind_char, rfind_char_in, trim, trim_str};
use crate::text::push_char;
use crate::utf16::{char_from_u32, lemma_until_nul, until_nul};

verus! {

/// The file name of the Remote API library for the build's pointer width.
pub open spec fn dll_name(wide_pointers: bool) -> Seq<char> {
    if wide_pointers {
        "VoicemeeterRemote64.dll"@
    } else {
        "VoicemeeterRemote.dll"@
    }
}

/// The Remote API library that matches this build: `VoicemeeterRemote64.dll`
/// for a 64-bit build, `VoicemeeterRemote.dll` for a 32-bit one.
pub fn dll_file_name() -> (r: &'static str)
    ensures
        r@ == dll_name(usize::BITS == 64),
{
    if usize::BITS == 64 {
        "VoicemeeterRemote64.dll"
    } else {
        "VoicemeeterRemote.dll"
    }
}

/// The texts of the strings.
pub open spec fn texts(v: Seq<String>) -> Seq<Seq<char>> {
    v.map_values(|s: String| s@)
}

/// The library in an installation folder.
pub open spec fn dll_in_folder(folder: Seq<char>, wide_pointers: bool) -> Seq<char> {
    folder + "\\"@ + dll_name(wide_pointers)
}

/// The library in the Voicemeeter folder under a program-files folder.
pub open spec fn dll_under_programs(root: Seq<char>, wide_pointers: bool) -> Seq<char> {
    root + "\\VB\\Voicemeeter\\"@ + dll_name(wide_pointers)
}

/// Where the library is looked for, in order: in each installation folder
/// (found in the registry), then in the Voicemeeter folder under each
/// program-files folder.
pub open spec fn dll_search_paths(
    install_folders: Seq<Seq<char>>,
    program_roots: Seq<Seq<char>>,
    wide_pointers: bool,
) -> Seq<Seq<char>> {
    install_folders.map_values(|f: Seq<char>| dll_in_folder(f, wide_pointers))
        + program_roots.map_values(|t: Seq<char>| dll_under_programs(t, wide_pointers))
}

/// The paths where the library is looked for, in order.
pub fn dll_search_list(install_folders: &[String], program_roots: &[String]) -> (r: Vec<String>)
    ensures
        texts(r@) == dll_search_paths(
            texts(install_folders@),
            texts(program_roots@),
            usize::BITS == 64,
        ),
{
    let ghost wide = usize::BITS == 64;
    let name = dll_file_name();
    let mut r: Vec<String> = Vec::new();
    let mut i: usize = 0;
    while i < install_folders.len()
        invariant
            i <= install_folders@.len(),
            name@ == dll_name(wide),
            texts(r@) == texts(install_folders@).take(i as int).map_values(
                |f: Seq<char>| dll_in_folder(f, wide),
            ),
        decreases install_folders.len() - i,
    {
        let mut p = String::from_str(install_folders[i].as_str());
        p.append("\\");
        p.append(name);
        let ghost before = texts(r@);
        r.push(p);
        assert(texts(install_folders@).take(i + 1) =~= texts(install_folders@).take(i as int).push(
            install_folders@[i as int]@,
        ));
        assert(texts(r@) =~= before.push(dll_in_folder(install_folders@[i as int]@, wide)));
        i = i + 1;
    }
    assert(texts(install_folders@).take(i as int) =~= texts(install_folders@));
    let ghost first = texts(r@);
    let mut j: usize = 0;
    while j < program_roots.len()
        invariant
            j <= program_roots@.len(),
            name@ == dll_name(wide),
            texts(r@) == first + texts(program_roots@).take(j as int).map_values(
                |t: Seq<char>| dll_under_programs(t, wide),
            ),
        decreases program_roots.len() - j,
    {
        let mut p = String::from_str(program_roots[j].as_str());
        p.append("\\VB\\Voicemeeter\\");
        p.append(name);
        let ghost before = texts(r@);
        r.push(p);
        assert(texts(program_roots@).take(j + 1) =~= texts(program_roots@).take(j as int).push(
            program_roots@[j as int]@,
        ));
        assert(texts(r@) =~= before.push(dll_under_programs(program_roots@[j as int]@, wide)));
        j = j + 1;
    }
    assert(texts(program_roots@).take(j as int) =~= texts(program_roots@));
    r
}

/// `r` is the outcome of asking `probe` about the candidates in order until
/// one is there: the first candidate for which `probe` answered `true`, all
/// before it having been answered `false`; or `None`, every candidate having
/// been answered `false`.
pub open spec fn first_existing<F: Fn(&String) -> bool>(
    probe: F,
    candidates: Seq<String>,
    r: Option<String>,
) -> bool {
    match r {
        Some(p) => exists|k: int|
            0 <= k < candidates.len() && p@ == candidates[k]@ && call_ensures(
                probe,
                (&candidates[k],),
                true,
            ) && forall|j: int| 0 <= j < k ==> call_ensures(probe, (&candidates[j],), false),
        None => forall|j: int|
            0 <= j < candidates.len() ==> call_ensures(probe, (&candidates[j],), false),
    }
}

/// The first of `candidates` for which `probe` answers `true`, asking in
/// order and no further than that one; `None` when it answers `false` for all.
pub fn first_found<F: Fn(&String) -> bool>(candidates: &[String], probe: F) -> (r: Option<String>)
    requires
        forall|p: &String| probe.requires((p,)),
    ensures
        first_existing(probe, candidates@, r),
{
    let mut i: usize = 0;
    while i < candidates.len()
        invariant
            i <= candidates@.len(),
            forall|p: &String| probe.requires((p,)),
            forall|j: int| 0 <= j < i ==> call_ensures(probe, (&candidates@[j],), false),
        decreases candidates.len() - i,
    {
        let there = probe(&candidates[i]);
        if there {
            let r = Some(String::from_str(candidates[i].as_str()));
            assert(first_existing(probe, candidates@, r)) by {
                assert(r->0@ == candidates@[i as int]@);
            }
            return r;
        }
        i = i + 1;
    }
    None
}

/// The path of the Voicemeeter Remote API library that matches the build's
/// pointer width (`VoicemeeterRemote64.dll` for a 64-bit build,
/// `VoicemeeterRemote.dll` for a 32-bit one): the first of the paths in the
/// installation folders, then under the program-files folders, for which
/// `probe` (a test of the file system) answers `true`, asked in order and no
/// further than that one; `None` when it answers `false` for all.
pub fn find_voicemeeter_dll<F: Fn(&String) -> bool>(
    install_folders: &[String],
    program_roots: &[String],
    probe: F,
) -> (r: Option<String>)
    requires
        forall|p: &String| probe.requires((p,)),
    ensures
        exists|candidates: Seq<String>|
            texts(candidates) == dll_search_paths(
                texts(install_folders@),
                texts(program_roots@),
                usize::BITS == 64,
            ) && first_existing(probe, candidates, r),
{
    let list = dll_search_list(install_folders, program_roots);
    let r = first_found(list.as_slice(), probe);
    assert(texts(list@) == dll_search_paths(
        texts(install_folders@),
        texts(program_roots@),
        usize::BITS == 64,
    ) && first_existing(probe, list@, r));
    r
}

/// `.exe`, in any case of ASCII letters, starts at position `k` of `t`.
pub open spec fn is_exe_at(t: Seq<char>, k: int) -> bool {
    &&& 0 <= k
    &&& k + 4 <= t.len()
    &&& t[k] == '.'
    &&& (t[k + 1] == 'e' || t[k + 1] == 'E')
    &&& (t[k + 2] == 'x' || t[k + 2] == 'X')
    &&& (t[k + 3] == 'e' || t[k + 3] == 'E')
}

/// The first position from `k` on where `.exe` starts.
pub open spec fn find_exe_from(t: Seq<char>, k: int) -> Option<int>
    decreases t.len() - k,
{
    if k < 0 || k + 4 > t.len() {
        None
    } else if is_exe_at(t, k) {
        Some(k)
    } else {
        find_exe_from(t, k + 1)
    }
}

/// The program that an uninstall command line names: the quoted text when it
/// starts with a quote (`None` without a closing one), else the text up to and
/// including the first `.exe` (`None` without one), outer white space left out.
pub open spec fn uninstall_program(s: Seq<char>) -> Option<Seq<char>> {
    let t = trim(s);
    if t.len() > 0 && t[0] == '"' {
        match find(t.skip(1), seq!['"']) {
            Some(k) => Some(t.subrange(1, 1 + k)),
            None => None,
        }
    } else {
        match find_exe_from(t, 0) {
            Some(k) => Some(t.take(k + 4)),
            None => None,
        }
    }
}

/// The installation folder of the program that an uninstall command line
/// names: its path up to the last `\`, when there is one after the start.
pub open spec fn install_folder(s: Seq<char>) -> Option<Seq<char>> {
    match uninstall_program(s) {
        Some(p) => match rfind_char(p, '\\') {
            Some(k) => if k > 0 {
                Some(p.take(k))
            } else {
                None
            },
            None => None,
        },
        None => None,
    }
}

/// The first position where `.exe` starts in `t`.
fn find_exe(t: &str) -> (r: Option<usize>)
    ensures
        r is None <==> find_exe_from(t@, 0) is None,
        r matches Some(k) ==> find_exe_from(t@, 0) == Some(k as int) && k + 4 <= t@.len(),
{
    let n = t.unicode_len();
    let mut k: usize = 0;
    while 4 <= n && k <= n - 4
        invariant
            n == t@.len(),
            k <= n,
            find_exe_from(t@, 0) == find_exe_from(t@, k as int),
        decreases n - k,
    {
        let a = t.get_char(k);
        let b = t.get_char(k + 1);
        let c = t.get_char(k + 2);
        let d = t.get_char(k + 3);
        if a == '.' && (b == 'e' || b == 'E') && (c == 'x' || c == 'X') && (d == 'e' || d == 'E') {
            return Some(k);
        }
        k = k + 1;
    }
    None
}

/// The installation folder of the program that the uninstall command line
/// `s` (from the registry) names, such as `C:\Program Files (x86)\VB\Voicemeeter`
/// for `"C:\Program Files (x86)\VB\Voicemeeter\voicemeeterprosetup.exe" /u`.
pub fn install_folder_from_uninstall_string(s: &str) -> (r: Option<String>)
    ensures
        match install_folder(s@) {
            Some(f) => r matches Some(x) && x@ == f,
            None => r is None,
        },
{
    let t = trim_str(s);
    let n = t.unicode_len();
    let program: &str;
    if n > 0 && t.get_char(0) == '"' {
        let rest = t.substring_char(1, n);
        proof {
            reveal_strlit("\"");
            assert(rest@ =~= t@.skip(1));
            assert("\""@ =~= seq!['"']);
        }
        match find_str(rest, "\"") {
            Some(k) => {
                program = rest.substring_char(0, k);
                assert(program@ =~= t@.subrange(1, 1 + k as int));
            },
            None => {
                return None;
            },
        }
    } else {
        match find_exe(t) {
            Some(k) => {
                program = t.substring_char(0, k + 4);
                assert(program@ =~= t@.take(k + 4));
            },
            None => {
                return None;
            },
        }
    }
    assert(uninstall_program(s@) == Some(program@));
    match rfind_char_in(program, '\\') {
        Some(k) => {
            if k > 0 {
                let f = program.substring_char(0, k);
                assert(f@ =~= program@.take(k as int));
                Some(String::from_str(f))
            } else {
                None
            }
        },
        None => None,
    }
}

/// Process names of the Voicemeeter editions, as lower-case image names.
pub const PROCESS_NAMES: [&'static str; 6] = [
    "voicemeeter8x64",
    "voicemeeter8",
    "voicemeeterpro_x64",
    "voicemeeterpro",
    "voicemeeter_x64",
    "voicemeeter",
];

/// `text` mentions the name of a Voicemeeter process.
pub open spec fn mentions_voicemeeter(text: Seq<char>) -> bool {
    exists|k: int| 0 <= k < 6 && find(text, #[trigger] PROCESS_NAMES[k]@) is Some
}

/// Does the (lower-case) process listing `lowered` mention a Voicemeeter process?
pub fn lists_voicemeeter_process(lowered: &str) -> (r: bool)
    ensures
        r == mentions_voicemeeter(lowered@),
{
    let mut k: usize = 0;
    while k < 6
        invariant
            k <= 6,
            forall|j: int| 0 <= j < k ==> find(lowered@, #[trigger] PROCESS_NAMES[j]@) is None,
        decreases 6 - k,
    {
        if find_str(lowered, PROCESS_NAMES[k]).is_some() {
            return true;
        }
        k = k + 1;
    }
    false
}

/// `c` with an ASCII capital letter made small; any other character as it is.
pub open spec fn ascii_lower_char(c: char) -> char {
    if 'A' <= c <= 'Z' {
        ((c as u32) + 32) as char
    } else {
        c
    }
}

/// `s` with its ASCII capital letters made small.
pub open spec fn ascii_lowercase(s: Seq<char>) -> Seq<char> {
    s.map_values(|c: char| ascii_lower_char(c))
}

/// `s` with its ASCII capital letters made small (`str::to_ascii_lowercase`).
fn to_ascii_lowercase(s: &str) -> (r: String)
    ensures
        r@ == ascii_lowercase(s@),
{
    let n = s.unicode_len();
    let mut out = String::new();
    let mut i: usize = 0;
    while i < n
        invariant
            n == s@.len(),
            i <= n,
            out@ == ascii_lowercase(s@.take(i as int)),
        decreases n - i,
    {
        let c = s.get_char(i);
        let l = if 'A' <= c && c <= 'Z' {
            match char_from_u32(c as u32 + 32) {
                Some(l) => l,
                None => c,
            }
        } else {
            c
        };
        assert(l == ascii_lower_char(c));
        push_char(&mut out, l);
        assert(s@.take(i + 1) =~= s@.take(i as int).push(c));
        assert(ascii_lowercase(s@.take(i + 1)) =~= ascii_lowercase(s@.take(i as int)).push(l));
        i = i + 1;
    }
    assert(s@.take(n as int) =~= s@);
    out
}

/// Does the output of `tasklist` show a running Voicemeeter process? The
/// output is lower-cased (the process names are ASCII, so ASCII letters are
/// what matters), then searched for each process name.
pub fn tasklist_shows_voicemeeter(output: &str) -> (r: bool)
    ensures
        r == mentions_voicemeeter(ascii_lowercase(output@)),
{
    let lowered = to_ascii_lowercase(output);
    lists_voicemeeter_process(lowered.as_str())
}

/// Error, after the library's file name, when no candidate path of it exists.
pub const DLL_NOT_FOUND_SUFFIX: &'static str = " not found in standard installation directories";

/// Error when the library lacks one of the functions used.
pub const ENTRY_POINTS_MESSAGE: &'static str = "Failed to resolve Voicemeeter API entry points";

/// Error when `VBVMR_Login` returns 1: the Voicemeeter application is not running.
pub const NOT_LAUNCHED_MESSAGE: &'static str =
    "VBVMR_Login returned 1: the Voicemeeter application is not launched";

/// What a Remote API session is for.
pub enum SessionKind {
    /// Write `Command.Restart = 1` and wait until Voicemeeter has taken it.
    Restart,
    /// Bring the client's copy of the parameters up to date, then read the
    /// device on hardware output A1.
    ReadA1,
}

/// Milliseconds between two polls of `VBVMR_IsParametersDirty`.
pub const DIRTY_POLL_INTERVAL_MS: u64 = 10;

/// Most polls of `VBVMR_IsParametersDirty` in one session: at 10 ms apart,
/// the 150 ms that Voicemeeter's message loop may take to handle a command.
pub const DIRTY_POLL_LIMIT: u32 = 15;

/// What the last step of a Remote API session found.
pub enum RemoteEvent {
    /// The session starts with the library path that was found, if any.
    Started(Option<String>),
    /// Loading the library gave a module (`true`) or null (`false`).
    LibraryLoaded(bool),
    /// All entry points were found (`true`) or one was null (`false`).
    EntryPointsResolved(bool),
    /// `VBVMR_Login` returned this code.
    LoginReturned(i32),
    /// The restart command was written.
    ParameterSet,
    /// Poll number `n` (the second field) of `VBVMR_IsParametersDirty`
    /// returned this code (the first): 0 for no change, 1 for changed
    /// parameters, negative for an error.
    DirtyPolled(i32, u32),
    /// The device name was read.
    ParameterRead,
}

/// What the session does next.
pub enum RemoteAction {
    /// Load the library at this path.
    LoadLibrary(String),
    /// Look up `VBVMR_Login`, `VBVMR_Logout`, `VBVMR_IsParametersDirty` and
    /// the parameter function.
    ResolveEntryPoints,
    /// Call `VBVMR_Login`.
    Login,
    /// Write `Command.Restart = 1`.
    SetParameter,
    /// Wait this many milliseconds, then call `VBVMR_IsParametersDirty`: poll
    /// number `n` (the second field).
    PollDirty(u64, u32),
    /// Read the device name of hardware output A1.
    ReadParameter,
    /// Free the library, then end the session with this error.
    ReleaseAndFail(String),
    /// Call `VBVMR_Logout`, free the library, then end the session with this error.
    LogoutReleaseAndFail(String),
    /// End the session with this error; no library is loaded.
    Fail(String),
    /// Call `VBVMR_Logout`, free the library, then end the session successfully.
    LogoutReleaseAndFinish,
}

/// The next step of a session of `kind` with the library at `dll_path`,
/// after `event`: a missing library, a failed load or a missing entry point
/// ends the session with an error; login code 0 goes on, and any other login
/// code (1: Voicemeeter is not launched; negative: an error) logs out and ends
/// the session with an error. A restart writes the command, then polls the
/// dirty flag every 10 ms until Voicemeeter reports a change (or an error), 15
/// polls at most, and ends; a read of A1 polls until the flag reports no
/// pending change (or an error), 15 polls at most, then reads and ends. Once
/// the library is loaded, every end of the session frees it, and before that
/// none does; once login was called, every end logs out.
pub fn next_remote_action(kind: &SessionKind, dll_path: &str, event: RemoteEvent) -> (r: RemoteAction)
    ensures
        match event {
            RemoteEvent::Started(None) => r matches RemoteAction::Fail(m) && m@ == dll_name(
                usize::BITS == 64,
            ) + DLL_NOT_FOUND_SUFFIX@,
            RemoteEvent::Started(Some(p)) => r matches RemoteAction::LoadLibrary(q) && q@ == p@,
            RemoteEvent::LibraryLoaded(false) => r matches RemoteAction::Fail(m) && m@
                == "Failed to load "@ + dll_path@,
            RemoteEvent::LibraryLoaded(true) => r is ResolveEntryPoints,
            RemoteEvent::EntryPointsResolved(false) => r matches RemoteAction::ReleaseAndFail(m) && m@
                == ENTRY_POINTS_MESSAGE@,
            RemoteEvent::EntryPointsResolved(true) => r is Login,
            RemoteEvent::LoginReturned(code) => if code == 0 {
                match kind {
                    SessionKind::Restart => r is SetParameter,
                    SessionKind::ReadA1 => r == RemoteAction::PollDirty(DIRTY_POLL_INTERVAL_MS, 1),
                }
            } else if code == 1 {
                r matches RemoteAction::LogoutReleaseAndFail(m) && m@ == NOT_LAUNCHED_MESSAGE@
            } else {
                r matches RemoteAction::LogoutReleaseAndFail(m) && m@
                    == "VBVMR_Login returned error code: "@ + signed_decimal(code as int)
            },
            RemoteEvent::ParameterSet => r == RemoteAction::PollDirty(DIRTY_POLL_INTERVAL_MS, 1),
            RemoteEvent::DirtyPolled(code, n) => match kind {
                SessionKind::Restart => if code != 0 || n >= DIRTY_POLL_LIMIT {
                    r is LogoutReleaseAndFinish
                } else {
                    r == RemoteAction::PollDirty(DIRTY_POLL_INTERVAL_MS, (n + 1) as u32)
                },
                SessionKind::ReadA1 => if code <= 0 || n >= DIRTY_POLL_LIMIT {
                    r is ReadParameter
                } else {
                    r == RemoteAction::PollDirty(DIRTY_POLL_INTERVAL_MS, (n + 1) as u32)
                },
            },
            RemoteEvent::ParameterRead => r is LogoutReleaseAndFinish,
        },
        event is LibraryLoaded || event is Started ==> !(r is ReleaseAndFail) && !(
        r is LogoutReleaseAndFail) && !(r is LogoutReleaseAndFinish),
        event is EntryPointsResolved ==> !(r is LogoutReleaseAndFail) && !(r is LogoutReleaseAndFinish),
        event is LoginReturned || event is ParameterSet || event is DirtyPolled
            || event is ParameterRead ==> !(r is ReleaseAndFail),
        !(event is Started) && !(event is LibraryLoaded) ==> !(r is Fail) && !(r is LoadLibrary),
        r matches RemoteAction::PollDirty(_, n) ==> 1 <= n <= DIRTY_POLL_LIMIT,
{
    match event {
        RemoteEvent::Started(None) => {
            let mut m = String::from_str(dll_file_name());
            m.append(DLL_NOT_FOUND_SUFFIX);
            RemoteAction::Fail(m)
        },
        RemoteEvent::Started(Some(p)) => RemoteAction::LoadLibrary(p),
        RemoteEvent::LibraryLoaded(false) => {
            let mut m = String::from_str("Failed to load ");
            m.append(dll_path);
            RemoteAction::Fail(m)
        },
        RemoteEvent::LibraryLoaded(true) => RemoteAction::ResolveEntryPoints,
        RemoteEvent::EntryPointsResolved(false) => RemoteAction::ReleaseAndFail(
            String::from_str(ENTRY_POINTS_MESSAGE),
        ),
        RemoteEvent::EntryPointsResolved(true) => RemoteAction::Login,
        RemoteEvent::LoginReturned(code) => if code == 0 {
            match kind {
                SessionKind::Restart => RemoteAction::SetParameter,
                SessionKind::ReadA1 => RemoteAction::PollDirty(DIRTY_POLL_INTERVAL_MS, 1),
            }
        } else if code == 1 {
            RemoteAction::LogoutReleaseAndFail(String::from_str(NOT_LAUNCHED_MESSAGE))
        } else {
            let mut m = String::from_str("VBVMR_Login returned error code: ");
            let digits = i32_to_decimal(code);
            m.append(digits.as_str());
            RemoteAction::LogoutReleaseAndFail(m)
        },
        RemoteEvent::ParameterSet => RemoteAction::PollDirty(DIRTY_POLL_INTERVAL_MS, 1),
        RemoteEvent::DirtyPolled(code, n) => match kind {
            SessionKind::Restart => if code != 0 || n >= DIRTY_POLL_LIMIT {
                RemoteAction::LogoutReleaseAndFinish
            } else {
                RemoteAction::PollDirty(DIRTY_POLL_INTERVAL_MS, n + 1)
            },
            SessionKind::ReadA1 => if code <= 0 || n >= DIRTY_POLL_LIMIT {
                RemoteAction::ReadParameter
            } else {
                RemoteAction::PollDirty(DIRTY_POLL_INTERVAL_MS, n + 1)
            },
        },
        RemoteEvent::ParameterRead => RemoteAction::LogoutReleaseAndFinish,
    }
}

/// The unit `u` is the ASCII character `c`, in either case.
pub open spec fn unit_matches_ascii(u: u16, c: char) -> bool {
    u < 128 && (u as u32 == c as u32 || ('a' <= c <= 'z' && u as u32 + 32 == c as u32))
}

/// The UTF-16 text `units` is the lower-case ASCII name `name` up to ASCII
/// case; a unit outside ASCII never matches.
pub open spec fn ascii_name_matches(units: Seq<u16>, name: Seq<char>) -> bool {
    units.len() == name.len() && forall|i: int| 0 <= i < units.len() ==> unit_matches_ascii(
        #[trigger] units[i],
        name[i],
    )
}

/// The executable file name of a Voicemeeter edition.
pub open spec fn is_voicemeeter_image_name(units: Seq<u16>) -> bool {
    exists|k: int| 0 <= k < 6 && ascii_name_matches(units, #[trigger] PROCESS_NAMES[k]@ + ".exe"@)
}

/// Whether `units` is the lower-case ASCII name `name` up to ASCII case.
fn matches_ascii_name(units: &[u16], end: usize, name: &str) -> (r: bool)
    requires
        end <= units@.len(),
    ensures
        r == ascii_name_matches(units@.take(end as int), name@),
{
    let n = name.unicode_len();
    if n != end {
        return false;
    }
    let mut i: usize = 0;
    while i < n
        invariant
            n == name@.len(),
            n == end,
            end <= units@.len(),
            i <= n,
            forall|j: int| 0 <= j < i ==> unit_matches_ascii(#[trigger] units@.take(end as int)[j], name@[j]),
        decreases n - i,
    {
        let u = units[i];
        let c = name.get_char(i);
        let ok = u < 128 && (u as u32 == c as u32 || ('a' <= c && c <= 'z' && u as u32 + 32 == c as u32));
        assert(units@.take(end as int)[i as int] == u);
        if !ok {
            return false;
        }
        i = i + 1;
    }
    true
}

/// Whether the executable file name in the NUL-terminated buffer `exe` (as a
/// process snapshot gives it) is that of a Voicemeeter edition, compared up to
/// ASCII case; names holding any other character never match.
pub fn is_voicemeeter_image(exe: &[u16]) -> (r: bool)
    ensures
        r == is_voicemeeter_image_name(until_nul(exe@)),
{
    let n = exe.len();
    let mut end: usize = 0;
    while end < n && exe[end] != 0
        invariant
            n == exe@.len(),
            end <= n,
            forall|j: int| 0 <= j < end ==> exe@[j] != 0,
        decreases n - end,
    {
        end = end + 1;
    }
    proof {
        lemma_until_nul(exe@, end as int);
    }
    let mut k: usize = 0;
    while k < 6
        invariant
            k <= 6,
            end <= exe@.len(),
            until_nul(exe@) == exe@.take(end as int),
            forall|j: int| 0 <= j < k ==> !ascii_name_matches(exe@.take(end as int), #[trigger] PROCESS_NAMES[j]@ + ".exe"@),
        decreases 6 - k,
    {
        let mut name = String::from_str(PROCESS_NAMES[k]);
        name.append(".exe");
        if matches_ascii_name(exe, end, name.as_str()) {
            return true;
        }
        k = k + 1;
    }
    false
}

} // verus!
