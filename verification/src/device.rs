use vstd::prelude::*;

use crate::options::{check_device, device_setting};
use crate::text::{
    equal_str, find, find_str, is_piece_of, is_trimmed, lemma_find_from, lemma_piece_of_piece,
    lemma_piece_of_self, lemma_rfind_char, lemma_skip_piece, lemma_subrange_piece, lemma_trim_piece,
    is_white_space, occurs_at, rfind_char, rfind_char_in, trim, trim_end, trim_start, trim_str,
};

verus! {

/// The result of `char::is_alphanumeric`: the character has the Unicode
/// `Alphabetic` or `Numeric` property.
pub uninterp spec fn unicode_alphanumeric(c: char) -> bool;

/// Calls `char::is_alphanumeric`; its result is the named Unicode property.
#[verifier::external_body]
fn is_alphanumeric(c: char) -> (r: bool)
    ensures
        r == unicode_alphanumeric(c),
{
    c.is_alphanumeric()
}

/// An ASCII letter or digit.
pub open spec fn is_ascii_alphanumeric(c: char) -> bool {
    ('a' <= c <= 'z') || ('A' <= c <= 'Z') || ('0' <= c <= '9')
}

/// A character allowed in a driver-type prefix such as `WDM` or `DirectSound`:
/// `_` or an alphanumeric character (for ASCII, a letter or a digit; beyond
/// ASCII, one with the Unicode `Alphabetic` or `Numeric` property).
pub open spec fn is_driver_name_char(c: char) -> bool {
    c == '_' || if (c as u32) < 0x80 {
        is_ascii_alphanumeric(c)
    } else {
        unicode_alphanumeric(c)
    }
}

/// Whether `c` may occur in a driver-type prefix; the Unicode tables are asked
/// only for characters beyond ASCII.
fn driver_name_char(c: char) -> (r: bool)
    ensures
        r == is_driver_name_char(c),
{
    if c == '_' {
        true
    } else if (c as u32) < 0x80 {
        ('a' <= c && c <= 'z') || ('A' <= c && c <= 'Z') || ('0' <= c && c <= '9')
    } else {
        is_alphanumeric(c)
    }
}

/// Every character of `s` may occur in a driver-type prefix.
pub open spec fn is_driver_name(s: Seq<char>) -> bool {
    forall|i: int| 0 <= i < s.len() ==> is_driver_name_char(#[trigger] s[i])
}

/// An ASCII decimal digit.
pub open spec fn is_ascii_digit(c: char) -> bool {
    '0' <= c <= '9'
}

/// Every character of `s` is an ASCII decimal digit (true of the empty sequence).
pub open spec fn all_ascii_digits(s: Seq<char>) -> bool {
    forall|i: int| 0 <= i < s.len() ==> is_ascii_digit(#[trigger] s[i])
}

/// Where a driver-type prefix such as `"WDM: "` ends: the position of the first
/// `": "`, when the text before it is a non-empty run of alphanumeric characters
/// or `_`.
pub open spec fn driver_prefix_end(s: Seq<char>) -> Option<int> {
    match find(s, seq![':', ' ']) {
        Some(k) => if k > 0 && is_driver_name(s.take(k)) {
            Some(k)
        } else {
            None
        },
        None => None,
    }
}

/// Drops the text up to and including the `": "` at `prefix_end`, then trims.
pub open spec fn after_driver_prefix(s: Seq<char>, prefix_end: Option<int>) -> Seq<char> {
    match prefix_end {
        Some(k) => trim(s.skip(k + 2)),
        None => s,
    }
}

/// Names that Windows gives an audio endpoint by its role, in English and in
/// a few other display languages; such a name wraps the hardware name in
/// parentheses, as in `Speakers (Realtek(R) Audio)`.
pub const ENDPOINT_ROLES: [&'static str; 34] = [
    "Speakers",
    "Speaker",
    "Headphones",
    "Headphone",
    "Headset",
    "Headset Earphone",
    "Headset Microphone",
    "Earphones",
    "Earphone",
    "Microphone",
    "Microphone Array",
    "Line",
    "Line In",
    "Line Out",
    "Digital Output",
    "Digital Audio",
    "Stereo Mix",
    "Lautsprecher",
    "Kopfhörer",
    "Mikrofon",
    "Haut-parleurs",
    "Casque",
    "Altavoces",
    "Auriculares",
    "Micrófono",
    "Altoparlanti",
    "Cuffie",
    "Microfono",
    "スピーカー",
    "ヘッドホン",
    "マイク",
    "扬声器",
    "耳机",
    "麦克风",
];

/// `s` is, as a whole phrase, one of the endpoint role names.
pub open spec fn is_endpoint_role(s: Seq<char>) -> bool {
    exists|k: int| 0 <= k < 34 && s == #[trigger] ENDPOINT_ROLES[k]@
}

/// Drops a numeric instance suffix that Windows adds to duplicate endpoints,
/// such as the ` (1)` in `Speakers (RODE NT-USB) (1)`, then trims.
pub open spec fn strip_instance_suffix(s: Seq<char>) -> Seq<char> {
    if s.len() > 0 && s.last() == ')' {
        match rfind_char(s, '(') {
            Some(k) => if 1 <= k && k + 2 < s.len() && s[k - 1] == ' ' && all_ascii_digits(
                s.subrange(k + 1, s.len() - 1),
            ) {
                trim(s.take(k))
            } else {
                s
            },
            None => s,
        }
    } else {
        s
    }
}

/// The text between the first `(` and the last `)` when the text before the
/// `(` is an endpoint role name and the `)` comes after the `(`; otherwise `s`
/// itself, so that a parenthesized qualifier such as the `(R)` of
/// `Intel(R) Display Audio` stays.
pub open spec fn role_parenthesized(s: Seq<char>) -> Seq<char> {
    match find(s, seq!['(']) {
        Some(start) => match rfind_char(s, ')') {
            Some(end) => if end > start && is_endpoint_role(trim(s.take(start))) {
                s.subrange(start + 1, end)
            } else {
                s
            },
            None => s,
        },
        None => s,
    }
}

/// Drops a Windows endpoint index such as `"2- "` (ASCII digits, possibly none,
/// before the first `"- "`), then trims.
pub open spec fn strip_endpoint_index(t: Seq<char>) -> Seq<char> {
    match find(t, seq!['-', ' ']) {
        Some(k) => if all_ascii_digits(t.take(k)) {
            trim(t.skip(k + 2))
        } else {
            t
        },
        None => t,
    }
}

/// The hardware name in an endpoint name `s` whose driver-type prefix, if any,
/// ends at `prefix_end`.
pub open spec fn hardware_name(s: Seq<char>, prefix_end: Option<int>) -> Seq<char> {
    strip_endpoint_index(
        trim(role_parenthesized(strip_instance_suffix(after_driver_prefix(s, prefix_end)))),
    )
}

/// The bare hardware name inside a Windows audio endpoint name.
pub open spec fn cleaned_device_name(raw: Seq<char>) -> Seq<char> {
    hardware_name(trim(raw), driver_prefix_end(trim(raw)))
}

/// Dropping a driver prefix keeps a piece of the name.
proof fn lemma_after_driver_prefix_piece(s: Seq<char>, prefix_end: Option<int>)
    requires
        prefix_end matches Some(k) ==> 0 <= k && k + 2 <= s.len(),
    ensures
        is_piece_of(after_driver_prefix(s, prefix_end), s),
{
    lemma_piece_of_self(s);
    if let Some(k) = prefix_end {
        lemma_skip_piece(s, k + 2);
        lemma_trim_piece(s.skip(k + 2));
        lemma_piece_of_piece(trim(s.skip(k + 2)), s.skip(k + 2), s);
    }
}

/// A driver prefix ends before a `": "` inside the name.
proof fn lemma_driver_prefix_end(s: Seq<char>)
    ensures
        driver_prefix_end(s) matches Some(k) ==> 0 < k && k + 2 <= s.len(),
{
    lemma_find_from(s, seq![':', ' '], 0);
}

/// Dropping an instance suffix keeps a piece of the name.
proof fn lemma_strip_instance_suffix_piece(s: Seq<char>)
    ensures
        is_piece_of(strip_instance_suffix(s), s),
{
    lemma_piece_of_self(s);
    lemma_rfind_char(s, '(');
    if s.len() > 0 && s.last() == ')' {
        if let Some(k) = rfind_char(s, '(') {
            if 1 <= k && k + 2 < s.len() && s[k - 1] == ' ' && all_ascii_digits(
                s.subrange(k + 1, s.len() - 1),
            ) {
                assert(s.take(k) =~= s.subrange(0, k));
                lemma_subrange_piece(s, 0, k);
                lemma_trim_piece(s.take(k));
                lemma_piece_of_piece(trim(s.take(k)), s.take(k), s);
            }
        }
    }
}

/// Taking the parenthesized text keeps a piece of the name.
proof fn lemma_role_parenthesized_piece(raw: Seq<char>)
    ensures
        is_piece_of(role_parenthesized(raw), raw),
{
    lemma_piece_of_self(raw);
    lemma_find_from(raw, seq!['('], 0);
    lemma_rfind_char(raw, ')');
    if let Some(start) = find(raw, seq!['(']) {
        if let Some(end) = rfind_char(raw, ')') {
            if end > start {
                lemma_subrange_piece(raw, start + 1, end);
            }
        }
    }
}

/// Dropping the endpoint index of a trimmed name keeps a trimmed piece of it.
proof fn lemma_strip_endpoint_index_piece(t: Seq<char>)
    requires
        is_trimmed(t),
    ensures
        is_piece_of(strip_endpoint_index(t), t),
        is_trimmed(strip_endpoint_index(t)),
{
    lemma_piece_of_self(t);
    lemma_find_from(t, seq!['-', ' '], 0);
    if let Some(k) = find(t, seq!['-', ' ']) {
        if all_ascii_digits(t.take(k)) {
            lemma_skip_piece(t, k + 2);
            lemma_trim_piece(t.skip(k + 2));
            lemma_piece_of_piece(trim(t.skip(k + 2)), t.skip(k + 2), t);
        }
    }
}

/// The hardware name is a piece of the endpoint name, without outer white space.
pub proof fn lemma_hardware_name(s: Seq<char>, prefix_end: Option<int>)
    requires
        prefix_end matches Some(k) ==> 0 <= k && k + 2 <= s.len(),
    ensures
        is_trimmed(hardware_name(s, prefix_end)),
        is_piece_of(hardware_name(s, prefix_end), s),
{
    let s0 = after_driver_prefix(s, prefix_end);
    let s1 = strip_instance_suffix(s0);
    let s2 = role_parenthesized(s1);
    lemma_after_driver_prefix_piece(s, prefix_end);
    lemma_strip_instance_suffix_piece(s0);
    lemma_piece_of_piece(s1, s0, s);
    lemma_role_parenthesized_piece(s1);
    lemma_piece_of_piece(s2, s1, s);
    lemma_trim_piece(s2);
    lemma_piece_of_piece(trim(s2), s2, s);
    lemma_strip_endpoint_index_piece(trim(s2));
    lemma_piece_of_piece(hardware_name(s, prefix_end), trim(s2), s);
}

/// The cleaned name is a piece of the raw name, without outer white space.
pub proof fn lemma_cleaned_device_name(raw: Seq<char>)
    ensures
        is_trimmed(cleaned_device_name(raw)),
        is_piece_of(cleaned_device_name(raw), raw),
{
    let s = trim(raw);
    lemma_trim_piece(raw);
    lemma_driver_prefix_end(s);
    lemma_hardware_name(s, driver_prefix_end(s));
    lemma_piece_of_piece(cleaned_device_name(raw), s, raw);
}

/// Are the first `k` characters of `s` all allowed in a driver-type prefix?
fn is_driver_name_prefix(s: &str, k: usize) -> (r: bool)
    requires
        k <= s@.len(),
    ensures
        r == is_driver_name(s@.take(k as int)),
{
    let mut i: usize = 0;
    while i < k
        invariant
            k <= s@.len(),
            i <= k,
            forall|t: int| 0 <= t < i ==> is_driver_name_char(#[trigger] s@[t]),
        decreases k - i,
    {
        let c = s.get_char(i);
        if !driver_name_char(c) {
            assert(s@.take(k as int)[i as int] == c);
            return false;
        }
        i = i + 1;
    }
    assert forall|t: int| 0 <= t < k implies is_driver_name_char(#[trigger] s@.take(k as int)[t]) by {
        assert(s@.take(k as int)[t] == s@[t]);
    }
    true
}

/// Are the first `k` characters of `s` all ASCII digits?
fn is_digit_prefix(s: &str, k: usize) -> (r: bool)
    requires
        k <= s@.len(),
    ensures
        r == all_ascii_digits(s@.take(k as int)),
{
    let mut i: usize = 0;
    while i < k
        invariant
            k <= s@.len(),
            i <= k,
            forall|t: int| 0 <= t < i ==> is_ascii_digit(#[trigger] s@[t]),
        decreases k - i,
    {
        let c = s.get_char(i);
        if !('0' <= c && c <= '9') {
            assert(s@.take(k as int)[i as int] == c);
            return false;
        }
        i = i + 1;
    }
    assert forall|t: int| 0 <= t < k implies is_ascii_digit(#[trigger] s@.take(k as int)[t]) by {
        assert(s@.take(k as int)[t] == s@[t]);
    }
    true
}

/// Where the driver-type prefix of `s` ends: the position of its first `": "`
/// when the text before it is a non-empty run of alphanumeric characters or `_`
/// (such as `WDM` or `DirectSound`), otherwise `None`.
pub fn find_driver_prefix(s: &str) -> (r: Option<usize>)
    ensures
        r is None <==> driver_prefix_end(s@) is None,
        r matches Some(k) ==> driver_prefix_end(s@) == Some(k as int) && k + 2 <= s@.len(),
{
    proof {
        reveal_strlit(": ");
        assert(": "@ =~= seq![':', ' ']);
    }
    match find_str(s, ": ") {
        Some(colon) => if colon > 0 && is_driver_name_prefix(s, colon) {
            Some(colon)
        } else {
            None
        },
        None => None,
    }
}

/// Are the characters of `s` from `a` to `b` all ASCII digits?
fn is_digit_range(s: &str, a: usize, b: usize) -> (r: bool)
    requires
        a <= b <= s@.len(),
    ensures
        r == all_ascii_digits(s@.subrange(a as int, b as int)),
{
    let mut i: usize = a;
    while i < b
        invariant
            a <= i <= b <= s@.len(),
            forall|t: int| a <= t < i ==> is_ascii_digit(#[trigger] s@[t]),
        decreases b - i,
    {
        let c = s.get_char(i);
        if !('0' <= c && c <= '9') {
            assert(s@.subrange(a as int, b as int)[i - a] == c);
            return false;
        }
        i = i + 1;
    }
    assert forall|t: int| 0 <= t < b - a implies is_ascii_digit(
        #[trigger] s@.subrange(a as int, b as int)[t],
    ) by {
        assert(s@.subrange(a as int, b as int)[t] == s@[a + t]);
    }
    true
}

/// Is `s`, as a whole phrase, one of the endpoint role names?
pub fn endpoint_role(s: &str) -> (r: bool)
    ensures
        r == is_endpoint_role(s@),
{
    let mut k: usize = 0;
    while k < ENDPOINT_ROLES.len()
        invariant
            forall|j: int| 0 <= j < k ==> s@ != #[trigger] ENDPOINT_ROLES[j]@,
        decreases ENDPOINT_ROLES.len() - k,
    {
        if equal_str(s, ENDPOINT_ROLES[k]) {
            return true;
        }
        k = k + 1;
    }
    false
}

/// Executable `strip_instance_suffix`.
pub fn strip_instance_suffix_str(s: &str) -> (r: &str)
    ensures
        r@ == strip_instance_suffix(s@),
{
    let n = s.unicode_len();
    if n > 0 && s.get_char(n - 1) == ')' {
        if let Some(k) = rfind_char_in(s, '(') {
            if 1 <= k && n >= 2 && k < n - 2 && s.get_char(k - 1) == ' ' && is_digit_range(s, k + 1, n - 1) {
                assert(s@.subrange(0, k as int) =~= s@.take(k as int));
                return trim_str(s.substring_char(0, k));
            }
        }
    }
    s
}

/// Executable `role_parenthesized`.
pub fn role_parenthesized_str(s: &str) -> (r: &str)
    ensures
        r@ == role_parenthesized(s@),
{
    proof {
        reveal_strlit("(");
        assert("("@ =~= seq!['(']);
    }
    match find_str(s, "(") {
        Some(start) => match rfind_char_in(s, ')') {
            Some(end) => {
                if end > start {
                    assert(s@.subrange(0, start as int) =~= s@.take(start as int));
                    if endpoint_role(trim_str(s.substring_char(0, start))) {
                        return s.substring_char(start + 1, end);
                    }
                }
                s
            },
            None => s,
        },
        None => s,
    }
}

/// Executable `strip_endpoint_index`.
pub fn strip_endpoint_index_str(t: &str) -> (r: &str)
    ensures
        r@ == strip_endpoint_index(t@),
{
    proof {
        reveal_strlit("- ");
        assert("- "@ =~= seq!['-', ' ']);
    }
    if let Some(dash) = find_str(t, "- ") {
        if is_digit_prefix(t, dash) {
            let n = t.unicode_len();
            assert(t@.subrange(dash + 2, n as int) =~= t@.skip(dash + 2));
            return trim_str(t.substring_char(dash + 2, n));
        }
    }
    t
}

/// The hardware name in the endpoint name `s`, whose driver-type prefix, if
/// any, ends at `prefix_end`: drops the prefix, drops an instance suffix such
/// as ` (1)`, takes the text inside the parentheses when what comes before them
/// is an endpoint role name, and drops an endpoint index such as `"2- "`,
/// trimming after each step.
pub fn hardware_name_after_prefix(s: &str, prefix_end: Option<usize>) -> (r: String)
    requires
        prefix_end matches Some(k) ==> k + 2 <= s@.len(),
    ensures
        r@ == hardware_name(
            s@,
            match prefix_end {
                Some(k) => Some(k as int),
                None => None,
            },
        ),
        is_trimmed(r@),
        is_piece_of(r@, s@),
{
    let ghost prefix = match prefix_end {
        Some(k) => Some(k as int),
        None => None,
    };
    proof {
        lemma_hardware_name(s@, prefix);
    }
    let rest: &str = match prefix_end {
        Some(k) => {
            let n = s.unicode_len();
            assert(s@.subrange(k + 2, n as int) =~= s@.skip(k + 2));
            trim_str(s.substring_char(k + 2, n))
        },
        None => s,
    };
    assert(rest@ == after_driver_prefix(s@, prefix));
    let unsuffixed = strip_instance_suffix_str(rest);
    let candidate = role_parenthesized_str(unsuffixed);
    let trimmed = trim_str(candidate);
    String::from_str(strip_endpoint_index_str(trimmed))
}

/// Reduces a Windows audio endpoint name to the hardware name: trims it, drops a
/// driver-type prefix (`"WDM: "`), takes the text inside the outer parentheses,
/// and drops an endpoint index (`"2- "`).
pub fn clean_device_name(raw: &str) -> (r: String)
    ensures
        r@ == cleaned_device_name(raw@),
        is_trimmed(r@),
        is_piece_of(r@, raw@),
{
    proof {
        lemma_cleaned_device_name(raw@);
    }
    let s = trim_str(raw);
    let prefix_end = find_driver_prefix(s);
    hardware_name_after_prefix(s, prefix_end)
}

/// Voicemeeter reports no hardware output A1 as an empty name or `-`.
pub open spec fn is_unassigned_device(name: Seq<char>) -> bool {
    name.len() == 0 || name == "-"@
}

/// The filter that the device on hardware output A1 gives: none when no device
/// is assigned, or when its cleaned name is empty or cannot be a filter (it
/// holds a control character, or both kinds of quote); the cleaned name
/// otherwise.
pub open spec fn a1_filter(a1: Seq<char>) -> Option<Seq<char>> {
    if is_unassigned_device(a1) {
        None
    } else {
        let c = cleaned_device_name(a1);
        if c.len() > 0 && device_setting(c) is Ok {
            Some(c)
        } else {
            None
        }
    }
}

/// The device filter to install when none was given, from the name of the
/// device on hardware output A1 (see `a1_filter`).
pub fn device_filter_from_a1(a1: &str) -> (r: Option<String>)
    ensures
        match a1_filter(a1@) {
            Some(f) => r matches Some(g) && g@ == f,
            None => r is None,
        },
{
    if a1.unicode_len() == 0 || equal_str(a1, "-") {
        return None;
    }
    let cleaned = clean_device_name(a1);
    if cleaned.as_str().unicode_len() == 0 {
        return None;
    }
    match check_device(cleaned.as_str()) {
        Ok(_) => Some(cleaned),
        Err(_) => None,
    }
}

/// How the status report shows the device on hardware output A1: `None` when no
/// device is assigned, its name otherwise.
pub fn a1_display(a1: &str) -> (r: String)
    ensures
        is_unassigned_device(a1@) ==> r@ == "None"@,
        !is_unassigned_device(a1@) ==> r@ == a1@,
{
    if a1.unicode_len() == 0 || equal_str(a1, "-") {
        String::from_str("None")
    } else {
        String::from_str(a1)
    }
}


/// A name that Windows could wrap around a hardware name: not empty, without
/// white space at either end, and without `(`, `)` or `:`.
pub open spec fn is_plain_role_name(r: Seq<char>) -> bool {
    &&& r.len() > 0
    &&& is_trimmed(r)
    &&& forall|i: int| 0 <= i < r.len() ==> #[trigger] r[i] != '(' && r[i] != ')' && r[i] != ':'
}

/// Every endpoint role name is a plain name.
proof fn lemma_roles_are_plain(k: int)
    requires
        0 <= k < 34,
    ensures
        is_plain_role_name(ENDPOINT_ROLES[k]@),
{
    reveal_strlit("Speakers");
    reveal_strlit("Speaker");
    reveal_strlit("Headphones");
    reveal_strlit("Headphone");
    reveal_strlit("Headset");
    reveal_strlit("Headset Earphone");
    reveal_strlit("Headset Microphone");
    reveal_strlit("Earphones");
    reveal_strlit("Earphone");
    reveal_strlit("Microphone");
    reveal_strlit("Microphone Array");
    reveal_strlit("Line");
    reveal_strlit("Line In");
    reveal_strlit("Line Out");
    reveal_strlit("Digital Output");
    reveal_strlit("Digital Audio");
    reveal_strlit("Stereo Mix");
    reveal_strlit("Lautsprecher");
    reveal_strlit("Kopfhörer");
    reveal_strlit("Mikrofon");
    reveal_strlit("Haut-parleurs");
    reveal_strlit("Casque");
    reveal_strlit("Altavoces");
    reveal_strlit("Auriculares");
    reveal_strlit("Micrófono");
    reveal_strlit("Altoparlanti");
    reveal_strlit("Cuffie");
    reveal_strlit("Microfono");
    reveal_strlit("スピーカー");
    reveal_strlit("ヘッドホン");
    reveal_strlit("マイク");
    reveal_strlit("扬声器");
    reveal_strlit("耳机");
    reveal_strlit("麦克风");
    assert(is_plain_role_name(ENDPOINT_ROLES[k]@)) by {
        if k == 0 {
            assert(ENDPOINT_ROLES[0]@ == "Speakers"@);
        } else if k == 1 {
            assert(ENDPOINT_ROLES[1]@ == "Speaker"@);
        } else if k == 2 {
            assert(ENDPOINT_ROLES[2]@ == "Headphones"@);
        } else if k == 3 {
            assert(ENDPOINT_ROLES[3]@ == "Headphone"@);
        } else if k == 4 {
            assert(ENDPOINT_ROLES[4]@ == "Headset"@);
        } else if k == 5 {
            assert(ENDPOINT_ROLES[5]@ == "Headset Earphone"@);
        } else if k == 6 {
            assert(ENDPOINT_ROLES[6]@ == "Headset Microphone"@);
        } else if k == 7 {
            assert(ENDPOINT_ROLES[7]@ == "Earphones"@);
        } else if k == 8 {
            assert(ENDPOINT_ROLES[8]@ == "Earphone"@);
        } else if k == 9 {
            assert(ENDPOINT_ROLES[9]@ == "Microphone"@);
        } else if k == 10 {
            assert(ENDPOINT_ROLES[10]@ == "Microphone Array"@);
        } else if k == 11 {
            assert(ENDPOINT_ROLES[11]@ == "Line"@);
        } else if k == 12 {
            assert(ENDPOINT_ROLES[12]@ == "Line In"@);
        } else if k == 13 {
            assert(ENDPOINT_ROLES[13]@ == "Line Out"@);
        } else if k == 14 {
            assert(ENDPOINT_ROLES[14]@ == "Digital Output"@);
        } else if k == 15 {
            assert(ENDPOINT_ROLES[15]@ == "Digital Audio"@);
        } else if k == 16 {
            assert(ENDPOINT_ROLES[16]@ == "Stereo Mix"@);
        } else if k == 17 {
            assert(ENDPOINT_ROLES[17]@ == "Lautsprecher"@);
        } else if k == 18 {
            assert(ENDPOINT_ROLES[18]@ == "Kopfhörer"@);
        } else if k == 19 {
            assert(ENDPOINT_ROLES[19]@ == "Mikrofon"@);
        } else if k == 20 {
            assert(ENDPOINT_ROLES[20]@ == "Haut-parleurs"@);
        } else if k == 21 {
            assert(ENDPOINT_ROLES[21]@ == "Casque"@);
        } else if k == 22 {
            assert(ENDPOINT_ROLES[22]@ == "Altavoces"@);
        } else if k == 23 {
            assert(ENDPOINT_ROLES[23]@ == "Auriculares"@);
        } else if k == 24 {
            assert(ENDPOINT_ROLES[24]@ == "Micrófono"@);
        } else if k == 25 {
            assert(ENDPOINT_ROLES[25]@ == "Altoparlanti"@);
        } else if k == 26 {
            assert(ENDPOINT_ROLES[26]@ == "Cuffie"@);
        } else if k == 27 {
            assert(ENDPOINT_ROLES[27]@ == "Microfono"@);
        } else if k == 28 {
            assert(ENDPOINT_ROLES[28]@ == "スピーカー"@);
        } else if k == 29 {
            assert(ENDPOINT_ROLES[29]@ == "ヘッドホン"@);
        } else if k == 30 {
            assert(ENDPOINT_ROLES[30]@ == "マイク"@);
        } else if k == 31 {
            assert(ENDPOINT_ROLES[31]@ == "扬声器"@);
        } else if k == 32 {
            assert(ENDPOINT_ROLES[32]@ == "耳机"@);
        } else if k == 33 {
            assert(ENDPOINT_ROLES[33]@ == "麦克风"@);
        }
    }
}

/// `p` does not occur in `s` when its first character does not.
proof fn lemma_absent_start(s: Seq<char>, p: Seq<char>)
    requires
        p.len() > 0,
        forall|i: int| 0 <= i < s.len() ==> s[i] != p[0],
    ensures
        find(s, p) is None,
{
    lemma_find_from(s, p, 0);
    if let Some(j) = find(s, p) {
        assert(s.subrange(j, j + p.len())[0] == s[j]);
    }
}

/// A trimmed text is its own trim.
pub proof fn lemma_trimmed_is_own_trim(s: Seq<char>)
    requires
        is_trimmed(s),
    ensures
        trim(s) == s,
{
}

/// A role name followed by a space trims back to the role name.
pub proof fn lemma_trim_role_space(r: Seq<char>)
    requires
        r.len() > 0,
        is_trimmed(r),
    ensures
        trim(r + seq![' ']) == r,
{
    let t = r + seq![' '];
    assert(trim_start(t) == t);
    assert(is_white_space(t.last()));
    assert(t.drop_last() =~= r);
    assert(trim_end(t) == trim_end(r));
}

/// An endpoint role name wrapped around a hardware name cleans down to the
/// hardware name: for every role name `R` of `ENDPOINT_ROLES` (each of which
/// is recognized as a role) and every trimmed hardware name `H` without `(`,
/// without an endpoint index (`"- "`) and not made of digits alone (which
/// would read as a duplicate-endpoint suffix), `R (H)` cleans to `H`; so
/// `Speakers (Realtek(R) Audio)` and `スピーカー (Realtek(R) Audio)` both give
/// `Realtek(R) Audio`.
pub proof fn lemma_role_wrapped_name_cleans_to_hardware(k: int, h: Seq<char>)
    requires
        0 <= k < 34,
        is_trimmed(h),
        !h.contains('('),
        find(h, seq!['-', ' ']) is None,
        !all_ascii_digits(h),
    ensures
        is_endpoint_role(ENDPOINT_ROLES[k]@),
        cleaned_device_name(ENDPOINT_ROLES[k]@ + seq![' ', '('] + h + seq![')']) == h,
{
    let r = ENDPOINT_ROLES[k]@;
    lemma_roles_are_plain(k);
    let raw = r + seq![' ', '('] + h + seq![')'];
    let n = r.len() as int;
    assert(raw[n] == ' ' && raw[n + 1] == '(' && raw[raw.len() - 1] == ')');
    assert forall|i: int| 0 <= i < n implies #[trigger] raw[i] == r[i] by {}
    assert forall|i: int| 0 <= i < h.len() implies #[trigger] raw[n + 2 + i] == h[i] by {}
    // The raw name is trimmed.
    assert(is_trimmed(raw)) by {
        assert(raw[0] == r[0]);
    }
    lemma_trimmed_is_own_trim(raw);
    // No driver prefix: the first ": " would lie after the space before `(`.
    assert(driver_prefix_end(raw) is None) by {
        lemma_find_from(raw, seq![':', ' '], 0);
        if let Some(j) = find(raw, seq![':', ' ']) {
            assert(raw.subrange(j, j + 2)[0] == raw[j]);
            assert(raw[j] == ':');
            if j < n {
                assert(raw[j] == r[j]);
            }
            assert(j > n + 1);
            assert(raw.take(j)[n] == ' ');
            assert(!is_driver_name_char(raw.take(j)[n]));
        }
    }
    // No duplicate-endpoint suffix: the text in the last parentheses is not all digits.
    lemma_rfind_char(raw, '(');
    assert forall|i: int| n + 1 < i < raw.len() implies raw[i] != '(' by {
        if i < raw.len() - 1 {
            assert(raw[i] == h[i - n - 2]);
        }
    }
    assert(rfind_char(raw, '(') == Some(n + 1));
    assert(raw.subrange(n + 2, raw.len() - 1) =~= h);
    assert(strip_instance_suffix(raw) == raw);
    // The first `(` follows the role name, the last `)` ends the name.
    assert(find(raw, seq!['(']) == Some(n + 1)) by {
        lemma_find_from(raw, seq!['('], 0);
        assert(occurs_at(raw, seq!['('], n + 1)) by {
            assert(raw.subrange(n + 1, n + 2) =~= seq!['(']);
        }
        if let Some(j) = find(raw, seq!['(']) {
            assert(raw.subrange(j, j + 1)[0] == raw[j]);
            if j < n {
                assert(raw[j] == r[j]);
            }
        }
    }
    lemma_rfind_char(raw, ')');
    assert(rfind_char(raw, ')') == Some(raw.len() - 1));
    assert(raw.take(n + 1) =~= r + seq![' ']);
    lemma_trim_role_space(r);
    assert(is_endpoint_role(r));
    assert(role_parenthesized(raw) == h);
    lemma_trimmed_is_own_trim(h);
    assert(strip_endpoint_index(h) == h);
}

} // verus!
