use vstd::prelude::*;

use crate::decimal::{decimal, parse_u64, parse_u64_decimal, u64_to_decimal};
use crate::text::{equal_str, starts_with_str};

verus! {

/// Settling delay, in milliseconds, when none is given.
pub const DEFAULT_DELAY_MS: u64 = 150;

/// Largest settling delay accepted, in milliseconds.
pub const MAX_DELAY_MS: u64 = 30000;

/// Options of the `restart`, `install` and `uninstall` commands.
pub struct ParsedArgs {
    pub delay_ms: u64,
    pub device: Option<String>,
    pub user: Option<String>,
    pub silent: bool,
    pub wake: bool,
    pub disable_channel: bool,
}

/// What the options set: the settling delay, the device filter, the user the
/// task runs as, whether `restart` stays quiet, whether the task also runs on
/// wake from sleep, and whether `uninstall` also turns the audio event
/// channel off.
pub struct OptionValues {
    pub delay: u64,
    pub device: Option<Seq<char>>,
    pub user: Option<Seq<char>>,
    pub silent: bool,
    pub wake: bool,
    pub disable_channel: bool,
}

/// The view of an optional string.
pub open spec fn opt_view(s: Option<String>) -> Option<Seq<char>> {
    match s {
        Some(t) => Some(t@),
        None => None,
    }
}

impl View for ParsedArgs {
    type V = OptionValues;

    open spec fn view(&self) -> OptionValues {
        OptionValues {
            delay: self.delay_ms,
            device: opt_view(self.device),
            user: opt_view(self.user),
            silent: self.silent,
            wake: self.wake,
            disable_channel: self.disable_channel,
        }
    }
}

/// What no option changes: a 150 ms delay, no device or user, output shown,
/// wake triggers on, the event channel left as it is.
pub open spec fn default_option_values() -> OptionValues {
    OptionValues {
        delay: DEFAULT_DELAY_MS,
        device: None,
        user: None,
        silent: false,
        wake: true,
        disable_channel: false,
    }
}

/// The text of each argument.
pub open spec fn arg_texts(args: Seq<String>) -> Seq<Seq<char>> {
    args.map_values(|a: String| a@)
}

/// Error for a `--delay-ms` value that is not a `u64`.
pub open spec fn invalid_delay_message(text: Seq<char>) -> Seq<char> {
    "Invalid integer value '"@ + text + "' for --delay-ms"@
}

/// Error for a `--delay-ms` value above the maximum.
pub open spec fn delay_too_large_message(v: u64) -> Seq<char> {
    "Delay value "@ + decimal(v as nat) + "ms exceeds maximum allowed threshold of 30000ms"@
}

/// Error for an option that is not known.
pub open spec fn unrecognized_option_message(arg: Seq<char>) -> Seq<char> {
    "Unrecognized option: '"@ + arg + "'"@
}

/// An ASCII control character (`char::is_ascii_control`).
pub open spec fn is_ascii_control(c: char) -> bool {
    (c as u32) < 0x20 || c as u32 == 0x7f
}

/// `value` holds an ASCII control character.
pub open spec fn has_control_character(value: Seq<char>) -> bool {
    exists|i: int| 0 <= i < value.len() && is_ascii_control(#[trigger] value[i])
}

/// Error for a device name holding a control character.
pub open spec fn control_character_message() -> Seq<char> {
    "Invalid --device value: ASCII control characters are not allowed"@
}

/// Error for a device name holding both kinds of quote.
pub open spec fn both_quotes_message(name: Seq<char>) -> Seq<char> {
    "Invalid --device value "@ + name
        + ": a name holding both ' and \" cannot be written in an event log query"@
}

/// `name` holds both a single and a double quote, so that no XPath string
/// literal of the event log can hold it.
pub open spec fn has_both_quotes(name: Seq<char>) -> bool {
    name.contains('\'') && name.contains('"')
}

/// The device that `value` names, or the error for it: names with an ASCII
/// control character, or with both kinds of quote, are refused.
pub open spec fn device_setting(value: Seq<char>) -> Result<Seq<char>, Seq<char>> {
    if has_control_character(value) {
        Err(control_character_message())
    } else if has_both_quotes(value) {
        Err(both_quotes_message(value))
    } else {
        Ok(value)
    }
}

/// The delay that `text` sets, or the error for it.
pub open spec fn delay_setting(text: Seq<char>) -> Result<u64, Seq<char>> {
    match parse_u64_decimal(text) {
        None => Err(invalid_delay_message(text)),
        Some(v) => if v > MAX_DELAY_MS {
            Err(delay_too_large_message(v))
        } else {
            Ok(v)
        },
    }
}

/// Error for a user name holding a control character.
pub open spec fn user_control_character_message() -> Seq<char> {
    "Invalid --user value: ASCII control characters are not allowed"@
}

/// The user that `value` names, or the error for it: names with an ASCII
/// control character are refused.
pub open spec fn user_setting(value: Seq<char>) -> Result<Seq<char>, Seq<char>> {
    if has_control_character(value) {
        Err(user_control_character_message())
    } else {
        Ok(value)
    }
}

/// A `--device` value that asks for no filter at all: the trigger then
/// matches any active audio endpoint, and no device is looked up.
pub open spec fn is_wildcard_device(d: Seq<char>) -> bool {
    d == "*"@ || d == "any"@ || d == "all"@ || d == "-"@
}

/// `v` with the delay set to `d`.
pub open spec fn with_delay(v: OptionValues, d: u64) -> OptionValues {
    OptionValues { delay: d, device: v.device, user: v.user, silent: v.silent, wake: v.wake, disable_channel: v.disable_channel }
}

/// `v` with the device set to `d`.
pub open spec fn with_device(v: OptionValues, d: Seq<char>) -> OptionValues {
    OptionValues { delay: v.delay, device: Some(d), user: v.user, silent: v.silent, wake: v.wake, disable_channel: v.disable_channel }
}

/// `v` with the user set to `u`.
pub open spec fn with_user(v: OptionValues, u: Seq<char>) -> OptionValues {
    OptionValues { delay: v.delay, device: v.device, user: Some(u), silent: v.silent, wake: v.wake, disable_channel: v.disable_channel }
}

/// `v` with output suppressed.
pub open spec fn with_silent(v: OptionValues) -> OptionValues {
    OptionValues { delay: v.delay, device: v.device, user: v.user, silent: true, wake: v.wake, disable_channel: v.disable_channel }
}

/// `v` with the wake triggers on or off.
pub open spec fn with_wake(v: OptionValues, w: bool) -> OptionValues {
    OptionValues { delay: v.delay, device: v.device, user: v.user, silent: v.silent, wake: w, disable_channel: v.disable_channel }
}

/// `v` with the event channel to be turned off.
pub open spec fn with_channel_disabled(v: OptionValues) -> OptionValues {
    OptionValues { delay: v.delay, device: v.device, user: v.user, silent: v.silent, wake: v.wake, disable_channel: true }
}

/// Reading the option at position `i` of `args`, after earlier options set
/// `v`: whether it took the next argument as its value, and what the options
/// set now; or the error for it.
pub open spec fn option_step(args: Seq<Seq<char>>, i: int, v: OptionValues) -> Result<(bool, OptionValues), Seq<char>> {
    let arg = args[i];
    let has_value = i + 1 < args.len();
    if arg == "--delay-ms"@ {
        if !has_value {
            Err("Missing value for --delay-ms"@)
        } else {
            match delay_setting(args[i + 1]) {
                Err(e) => Err(e),
                Ok(d) => Ok((true, with_delay(v, d))),
            }
        }
    } else if "--delay-ms="@.is_prefix_of(arg) {
        match delay_setting(arg.skip("--delay-ms="@.len() as int)) {
            Err(e) => Err(e),
            Ok(d) => Ok((false, with_delay(v, d))),
        }
    } else if arg == "--device"@ {
        if !has_value {
            Err("Missing value for --device"@)
        } else {
            match device_setting(args[i + 1]) {
                Err(e) => Err(e),
                Ok(d) => Ok((true, with_device(v, d))),
            }
        }
    } else if "--device="@.is_prefix_of(arg) {
        match device_setting(arg.skip("--device="@.len() as int)) {
            Err(e) => Err(e),
            Ok(d) => Ok((false, with_device(v, d))),
        }
    } else if arg == "--user"@ {
        if !has_value {
            Err("Missing value for --user"@)
        } else {
            match user_setting(args[i + 1]) {
                Err(e) => Err(e),
                Ok(u) => Ok((true, with_user(v, u))),
            }
        }
    } else if "--user="@.is_prefix_of(arg) {
        match user_setting(arg.skip("--user="@.len() as int)) {
            Err(e) => Err(e),
            Ok(u) => Ok((false, with_user(v, u))),
        }
    } else if arg == "--silent"@ {
        Ok((false, with_silent(v)))
    } else if arg == "--wake"@ {
        Ok((false, with_wake(v, true)))
    } else if arg == "--no-wake"@ {
        Ok((false, with_wake(v, false)))
    } else if arg == "--disable-channel"@ {
        Ok((false, with_channel_disabled(v)))
    } else {
        Err(unrecognized_option_message(arg))
    }
}

/// Reading the options from position `i` on, with what the earlier options
/// set in `v`; a later option overrides an earlier one.
pub open spec fn options_from(args: Seq<Seq<char>>, i: int, v: OptionValues) -> Result<OptionValues, Seq<char>>
    decreases args.len() - i,
{
    if i < 0 || i >= args.len() {
        Ok(v)
    } else {
        match option_step(args, i, v) {
            Err(e) => Err(e),
            Ok((two, w)) => options_from(args, if two { i + 2 } else { i + 1 }, w),
        }
    }
}

/// What `args` set, or the error message.
pub open spec fn options_of(args: Seq<Seq<char>>) -> Result<OptionValues, Seq<char>> {
    options_from(args, 0, default_option_values())
}

/// Every outcome of `options_from` keeps the delay within the maximum.
pub proof fn lemma_options_delay_bound(args: Seq<Seq<char>>, i: int, v: OptionValues)
    requires
        v.delay <= MAX_DELAY_MS,
    ensures
        options_from(args, i, v) matches Ok(w) ==> w.delay <= MAX_DELAY_MS,
    decreases args.len() - i,
{
    if 0 <= i < args.len() {
        if let Ok((two, w)) = option_step(args, i, v) {
            lemma_options_delay_bound(args, if two { i + 2 } else { i + 1 }, w);
        }
    }
}

/// An option reads the same wherever it stands, given the same argument and,
/// when there is one, the same next argument.
proof fn lemma_step_same(a: Seq<Seq<char>>, i: int, b: Seq<Seq<char>>, j: int, v: OptionValues)
    requires
        0 <= i < a.len(),
        0 <= j < b.len(),
        a[i] == b[j],
        (i + 1 < a.len()) == (j + 1 < b.len()),
        i + 1 < a.len() ==> a[i + 1] == b[j + 1],
    ensures
        option_step(a, i, v) == option_step(b, j, v),
{
}

/// Reading from inside the second part of `a + b` is reading `b`.
#[verifier::spinoff_prover]
proof fn lemma_options_shift(a: Seq<Seq<char>>, b: Seq<Seq<char>>, j: int, v: OptionValues)
    requires
        0 <= j,
    ensures
        options_from(a + b, a.len() + j, v) == options_from(b, j, v),
    decreases b.len() - j,
{
    let ab = a + b;
    let i = a.len() + j;
    if j < b.len() {
        assert(ab[i] == b[j]);
        if j + 1 < b.len() {
            assert(ab[i + 1] == b[j + 1]);
        }
        lemma_step_same(ab, i, b, j, v);
        if let Ok((two, w)) = option_step(b, j, v) {
            lemma_options_shift(a, b, if two { j + 2 } else { j + 1 }, w);
        }
    }
}

/// Options are read from left to right: once `a` reads from position `i`
/// without error, `a` followed by more options reads the rest starting from
/// what `a` set.
#[verifier::spinoff_prover]
proof fn lemma_options_concat_from(a: Seq<Seq<char>>, b: Seq<Seq<char>>, i: int, v: OptionValues)
    requires
        0 <= i <= a.len(),
    ensures
        options_from(a, i, v) matches Ok(w) ==> options_from(a + b, i, v) == options_from(b, 0, w),
    decreases a.len() - i,
{
    let ab = a + b;
    if i == a.len() {
        lemma_options_shift(a, b, 0, v);
    } else {
        assert(ab[i] == a[i]);
        if i + 1 < a.len() {
            assert(ab[i + 1] == a[i + 1]);
        }
        if let Ok((two, w)) = option_step(a, i, v) {
            if two || i + 1 < a.len() {
                lemma_step_same(ab, i, a, i, v);
            }
            assert(option_step(ab, i, v) == option_step(a, i, v));
            lemma_options_concat_from(a, b, if two { i + 2 } else { i + 1 }, w);
        }
    }
}

/// `--delay-ms` followed by a value sets the delay to it, or fails on it.
pub proof fn lemma_step_delay(args: Seq<Seq<char>>, i: int, v: OptionValues)
    requires
        0 <= i,
        i + 1 < args.len(),
        args[i] == "--delay-ms"@,
    ensures
        option_step(args, i, v) == match delay_setting(args[i + 1]) {
            Ok(d) => Ok((true, with_delay(v, d))),
            Err(e) => Err::<(bool, OptionValues), Seq<char>>(e),
        },
{
}

/// `--device` followed by a value sets the device to it, or fails on it.
proof fn lemma_step_device(args: Seq<Seq<char>>, i: int, v: OptionValues)
    requires
        0 <= i,
        i + 1 < args.len(),
        args[i] == "--device"@,
    ensures
        option_step(args, i, v) == match device_setting(args[i + 1]) {
            Ok(d) => Ok((true, with_device(v, d))),
            Err(e) => Err::<(bool, OptionValues), Seq<char>>(e),
        },
{
    reveal_strlit("--delay-ms");
    reveal_strlit("--delay-ms=");
    reveal_strlit("--device");
    assert("--device"@.len() != "--delay-ms"@.len());
    assert(!"--delay-ms="@.is_prefix_of("--device"@)) by {
        assert("--device"@.len() < "--delay-ms="@.len());
    }
}

/// `--user` followed by a value sets the user to it, or fails on it.
proof fn lemma_step_user(args: Seq<Seq<char>>, i: int, v: OptionValues)
    requires
        0 <= i,
        i + 1 < args.len(),
        args[i] == "--user"@,
    ensures
        option_step(args, i, v) == match user_setting(args[i + 1]) {
            Ok(u) => Ok((true, with_user(v, u))),
            Err(e) => Err::<(bool, OptionValues), Seq<char>>(e),
        },
{
    reveal_strlit("--delay-ms");
    reveal_strlit("--delay-ms=");
    reveal_strlit("--device");
    reveal_strlit("--device=");
    reveal_strlit("--user");
    assert("--user"@[2] != "--delay-ms"@[2]);
    assert(!"--delay-ms="@.is_prefix_of("--user"@));
    assert(!"--device="@.is_prefix_of("--user"@));
}

/// `--silent` takes no value and suppresses output.
pub proof fn lemma_step_silent(args: Seq<Seq<char>>, i: int, v: OptionValues)
    requires
        0 <= i < args.len(),
        args[i] == "--silent"@,
    ensures
        option_step(args, i, v) == Ok::<(bool, OptionValues), Seq<char>>((false, with_silent(v))),
{
    reveal_strlit("--delay-ms");
    reveal_strlit("--delay-ms=");
    reveal_strlit("--device");
    reveal_strlit("--device=");
    reveal_strlit("--user");
    reveal_strlit("--user=");
    reveal_strlit("--silent");
    assert(!"--delay-ms="@.is_prefix_of("--silent"@));
    assert(!"--device="@.is_prefix_of("--silent"@));
    assert(!"--user="@.is_prefix_of("--silent"@)) by {
        assert("--user="@[2] != "--silent"@[2]);
    }
    assert("--silent"@[2] != "--delay-ms"@[2]);
    assert("--silent"@[2] != "--user"@[2]);
}

/// `--wake` takes no value and turns the wake triggers on.
proof fn lemma_step_wake(args: Seq<Seq<char>>, i: int, v: OptionValues)
    requires
        0 <= i < args.len(),
        args[i] == "--wake"@,
    ensures
        option_step(args, i, v) == Ok::<(bool, OptionValues), Seq<char>>((false, with_wake(v, true))),
{
    reveal_strlit("--delay-ms");
    reveal_strlit("--delay-ms=");
    reveal_strlit("--device");
    reveal_strlit("--device=");
    reveal_strlit("--user");
    reveal_strlit("--user=");
    reveal_strlit("--silent");
    reveal_strlit("--wake");
    assert(!"--delay-ms="@.is_prefix_of("--wake"@));
    assert(!"--device="@.is_prefix_of("--wake"@));
    assert(!"--user="@.is_prefix_of("--wake"@));
    assert("--wake"@[2] != "--delay-ms"@[2]);
    assert("--wake"@[2] != "--silent"@[2]);
    assert("--wake"@[2] != "--user"@[2]);
}

/// `--no-wake` takes no value and turns the wake triggers off.
proof fn lemma_step_no_wake(args: Seq<Seq<char>>, i: int, v: OptionValues)
    requires
        0 <= i < args.len(),
        args[i] == "--no-wake"@,
    ensures
        option_step(args, i, v) == Ok::<(bool, OptionValues), Seq<char>>((false, with_wake(v, false))),
{
    reveal_strlit("--delay-ms");
    reveal_strlit("--delay-ms=");
    reveal_strlit("--device");
    reveal_strlit("--device=");
    reveal_strlit("--user");
    reveal_strlit("--user=");
    reveal_strlit("--silent");
    reveal_strlit("--wake");
    reveal_strlit("--no-wake");
    assert("--no-wake"@[2] != "--delay-ms="@[2]);
    assert("--no-wake"@[2] != "--device="@[2]);
    assert("--no-wake"@[2] != "--user="@[2]);
    assert("--no-wake"@[2] != "--silent"@[2]);
    assert("--no-wake"@.len() != "--wake"@.len());
}

/// Options followed by one more option `b` (with its value, if it takes one)
/// read as that option read after them.
proof fn lemma_appended_option(args: Seq<Seq<char>>, b: Seq<Seq<char>>)
    requires
        options_of(args) is Ok,
        1 <= b.len() <= 2,
        option_step(b, 0, options_of(args)->Ok_0) matches Ok((two, _)) ==> b.len() == if two {
            2int
        } else {
            1int
        },
    ensures
        options_of(args + b) == match option_step(b, 0, options_of(args)->Ok_0) {
            Ok((_, w)) => Ok(w),
            Err(e) => Err::<OptionValues, Seq<char>>(e),
        },
{
    let v = options_of(args)->Ok_0;
    lemma_options_concat_from(args, b, 0, default_option_values());
    if let Ok((two, w)) = option_step(b, 0, v) {
        let j: int = if two {
            2
        } else {
            1
        };
        assert(options_from(b, j, w) == Ok::<OptionValues, Seq<char>>(w));
    }
}

/// A later option overrides an earlier one: after options that read without
/// error, `--delay-ms <MS>` sets the delay to `MS` (or fails on it),
/// `--device <NAME>` sets the device to `NAME` (or fails on it), and
/// `--user <NAME>` sets the user to `NAME` (or fails on it), each keeping
/// everything else; `--wake` and `--no-wake` turn the wake triggers on and off.
pub proof fn lemma_later_option_wins(args: Seq<Seq<char>>, value: Seq<char>)
    requires
        options_of(args) is Ok,
    ensures
        ({
            let v = options_of(args)->Ok_0;
            &&& options_of(args + seq!["--delay-ms"@, value]) == match delay_setting(value) {
                Ok(d) => Ok(with_delay(v, d)),
                Err(e) => Err::<OptionValues, Seq<char>>(e),
            }
            &&& options_of(args + seq!["--device"@, value]) == match device_setting(value) {
                Ok(d) => Ok(with_device(v, d)),
                Err(e) => Err::<OptionValues, Seq<char>>(e),
            }
            &&& options_of(args + seq!["--user"@, value]) == match user_setting(value) {
                Ok(u) => Ok(with_user(v, u)),
                Err(e) => Err::<OptionValues, Seq<char>>(e),
            }
            &&& options_of(args + seq!["--wake"@]) == Ok::<OptionValues, Seq<char>>(with_wake(v, true))
            &&& options_of(args + seq!["--no-wake"@]) == Ok::<OptionValues, Seq<char>>(with_wake(v, false))
        }),
{
    let v = options_of(args)->Ok_0;
    let b1 = seq!["--delay-ms"@, value];
    let b2 = seq!["--device"@, value];
    let b3 = seq!["--user"@, value];
    let b4 = seq!["--wake"@];
    let b5 = seq!["--no-wake"@];
    lemma_step_delay(b1, 0, v);
    lemma_step_device(b2, 0, v);
    lemma_step_user(b3, 0, v);
    lemma_step_wake(b4, 0, v);
    lemma_step_no_wake(b5, 0, v);
    lemma_appended_option(args, b1);
    lemma_appended_option(args, b2);
    lemma_appended_option(args, b3);
    lemma_appended_option(args, b4);
    lemma_appended_option(args, b5);
}

/// Whether `value` holds an ASCII control character.
fn holds_control_character(value: &str) -> (r: bool)
    ensures
        r == has_control_character(value@),
{
    let n = value.unicode_len();
    let mut i: usize = 0;
    while i < n
        invariant
            n == value@.len(),
            i <= n,
            forall|t: int| 0 <= t < i ==> !is_ascii_control(#[trigger] value@[t]),
        decreases n - i,
    {
        let v = value.get_char(i) as u32;
        if v < 0x20 || v == 0x7f {
            assert(is_ascii_control(value@[i as int]));
            return true;
        }
        i = i + 1;
    }
    false
}

/// Whether `value` holds both a `'` and a `"`.
fn holds_both_quotes(value: &str) -> (r: bool)
    ensures
        r == has_both_quotes(value@),
{
    let n = value.unicode_len();
    let mut i: usize = 0;
    let mut single = false;
    let mut double = false;
    while i < n
        invariant
            n == value@.len(),
            i <= n,
            single <==> exists|t: int| 0 <= t < i && value@[t] == '\'',
            double <==> exists|t: int| 0 <= t < i && value@[t] == '"',
        decreases n - i,
    {
        let c = value.get_char(i);
        if c == '\'' {
            single = true;
        }
        if c == '"' {
            double = true;
        }
        i = i + 1;
    }
    proof {
        if value@.contains('\'') {
            let t = choose|t: int| 0 <= t < value@.len() && value@[t] == '\'';
            assert(0 <= t < i && value@[t] == '\'');
        }
        if value@.contains('"') {
            let t = choose|t: int| 0 <= t < value@.len() && value@[t] == '"';
            assert(0 <= t < i && value@[t] == '"');
        }
    }
    single && double
}

/// The device that `value` names, or the error message for it.
pub fn check_device(value: &str) -> (r: Result<String, String>)
    ensures
        match device_setting(value@) {
            Ok(d) => r matches Ok(s) && s@ == d,
            Err(e) => r matches Err(m) && m@ == e,
        },
{
    if holds_control_character(value) {
        return Err(String::from_str("Invalid --device value: ASCII control characters are not allowed"));
    }
    if holds_both_quotes(value) {
        let mut m = String::from_str("Invalid --device value ");
        m.append(value);
        m.append(": a name holding both ' and \" cannot be written in an event log query");
        return Err(m);
    }
    Ok(String::from_str(value))
}

/// The user that `value` names, or the error message for it.
pub fn check_user(value: &str) -> (r: Result<String, String>)
    ensures
        match user_setting(value@) {
            Ok(u) => r matches Ok(s) && s@ == u,
            Err(e) => r matches Err(m) && m@ == e,
        },
{
    if holds_control_character(value) {
        return Err(String::from_str("Invalid --user value: ASCII control characters are not allowed"));
    }
    Ok(String::from_str(value))
}

/// Whether a `--device` value asks for no filter: `*`, `any`, `all` or `-`.
pub fn is_wildcard_device_str(d: &str) -> (r: bool)
    ensures
        r == is_wildcard_device(d@),
{
    equal_str(d, "*") || equal_str(d, "any") || equal_str(d, "all") || equal_str(d, "-")
}

/// The delay that `text` sets, or the error message for it.
fn parse_delay(text: &str) -> (r: Result<u64, String>)
    ensures
        match delay_setting(text@) {
            Ok(v) => r == Ok::<u64, String>(v),
            Err(e) => r matches Err(m) && m@ == e,
        },
{
    match parse_u64(text) {
        None => {
            let mut m = String::from_str("Invalid integer value '");
            m.append(text);
            m.append("' for --delay-ms");
            Err(m)
        },
        Some(v) => if v > MAX_DELAY_MS {
            let mut m = String::from_str("Delay value ");
            let digits = u64_to_decimal(v);
            m.append(digits.as_str());
            m.append("ms exceeds maximum allowed threshold of 30000ms");
            Err(m)
        } else {
            Ok(v)
        },
    }
}

/// The text of `arg` after `prefix`.
fn value_after<'a>(arg: &'a str, prefix: &str) -> (r: &'a str)
    requires
        prefix@.is_prefix_of(arg@),
    ensures
        r@ == arg@.skip(prefix@.len() as int),
{
    let n = arg.unicode_len();
    let k = prefix.unicode_len();
    let val = arg.substring_char(k, n);
    assert(val@ =~= arg@.skip(prefix@.len() as int));
    val
}

/// Reads the options: `--delay-ms <MS>` (or `--delay-ms=<MS>`), the settling
/// delay, 150 ms unless given and at most 30000 ms; `--device <NAME>` (or
/// `--device=<NAME>`), refused when the name holds an ASCII control character
/// or both `'` and `"`; `--user <NAME>` (or `--user=<NAME>`), refused when the
/// name holds an ASCII control character; `--silent`; `--wake` and
/// `--no-wake`, wake triggers being on unless turned off; and
/// `--disable-channel`. A later option overrides an earlier one.
pub fn parse_options(args: &[String]) -> (r: Result<ParsedArgs, String>)
    ensures
        match options_of(arg_texts(args@)) {
            Ok(v) => r matches Ok(p) && p@ == v,
            Err(e) => r matches Err(m) && m@ == e,
        },
        r matches Ok(p) ==> p.delay_ms <= MAX_DELAY_MS,
{
    let ghost texts = arg_texts(args@);
    let mut p = ParsedArgs {
        delay_ms: DEFAULT_DELAY_MS,
        device: None,
        user: None,
        silent: false,
        wake: true,
        disable_channel: false,
    };
    let mut i: usize = 0;
    proof {
        lemma_options_delay_bound(texts, 0, default_option_values());
    }
    while i < args.len()
        invariant
            texts == arg_texts(args@),
            texts.len() == args@.len(),
            i <= args.len(),
            p.delay_ms <= MAX_DELAY_MS,
            options_of(texts) == options_from(texts, i as int, p@),
        decreases args.len() - i,
    {
        let arg: &str = args[i].as_str();
        assert(texts[i as int] == arg@);
        if i + 1 < args.len() {
            assert(texts[i + 1] == args@[i + 1]@);
        }
        if equal_str(arg, "--delay-ms") {
            if i + 1 >= args.len() {
                return Err(String::from_str("Missing value for --delay-ms"));
            }
            match parse_delay(args[i + 1].as_str()) {
                Err(m) => {
                    return Err(m);
                },
                Ok(v) => {
                    p.delay_ms = v;
                },
            }
            i = i + 2;
        } else if starts_with_str(arg, "--delay-ms=") {
            match parse_delay(value_after(arg, "--delay-ms=")) {
                Err(m) => {
                    return Err(m);
                },
                Ok(v) => {
                    p.delay_ms = v;
                },
            }
            i = i + 1;
        } else if equal_str(arg, "--device") {
            if i + 1 >= args.len() {
                return Err(String::from_str("Missing value for --device"));
            }
            match check_device(args[i + 1].as_str()) {
                Err(m) => {
                    return Err(m);
                },
                Ok(d) => {
                    p.device = Some(d);
                },
            }
            i = i + 2;
        } else if starts_with_str(arg, "--device=") {
            match check_device(value_after(arg, "--device=")) {
                Err(m) => {
                    return Err(m);
                },
                Ok(d) => {
                    p.device = Some(d);
                },
            }
            i = i + 1;
        } else if equal_str(arg, "--user") {
            if i + 1 >= args.len() {
                return Err(String::from_str("Missing value for --user"));
            }
            match check_user(args[i + 1].as_str()) {
                Err(m) => {
                    return Err(m);
                },
                Ok(u) => {
                    p.user = Some(u);
                },
            }
            i = i + 2;
        } else if starts_with_str(arg, "--user=") {
            match check_user(value_after(arg, "--user=")) {
                Err(m) => {
                    return Err(m);
                },
                Ok(u) => {
                    p.user = Some(u);
                },
            }
            i = i + 1;
        } else if equal_str(arg, "--silent") {
            p.silent = true;
            i = i + 1;
        } else if equal_str(arg, "--wake") {
            p.wake = true;
            i = i + 1;
        } else if equal_str(arg, "--no-wake") {
            p.wake = false;
            i = i + 1;
        } else if equal_str(arg, "--disable-channel") {
            p.disable_channel = true;
            i = i + 1;
        } else {
            let mut m = String::from_str("Unrecognized option: '");
            m.append(arg);
            m.append("'");
            return Err(m);
        }
    }
    Ok(p)
}

/// The commands that take options, each with its own.
pub enum OptionScope {
    /// `--delay-ms`, `--silent`.
    Restart,
    /// `--device`, `--delay-ms`, `--user`, `--wake`, `--no-wake`.
    Install,
    /// `--disable-channel`.
    Uninstall,
}

/// The name of the option that `arg` gives: the text before `=` in the
/// `--name=value` forms, the argument itself otherwise.
pub open spec fn option_name(arg: Seq<char>) -> Seq<char> {
    if "--delay-ms="@.is_prefix_of(arg) {
        "--delay-ms"@
    } else if "--device="@.is_prefix_of(arg) {
        "--device"@
    } else if "--user="@.is_prefix_of(arg) {
        "--user"@
    } else {
        arg
    }
}

/// The option `name` belongs to the command.
pub open spec fn option_allowed(scope: OptionScope, name: Seq<char>) -> bool {
    match scope {
        OptionScope::Restart => name == "--delay-ms"@ || name == "--silent"@,
        OptionScope::Install => name == "--device"@ || name == "--delay-ms"@ || name == "--user"@
            || name == "--wake"@ || name == "--no-wake"@,
        OptionScope::Uninstall => name == "--disable-channel"@,
    }
}

/// The option is written with its value in the next argument.
pub open spec fn takes_next_value(arg: Seq<char>) -> bool {
    arg == "--delay-ms"@ || arg == "--device"@ || arg == "--user"@
}

/// The first option from position `i` on that does not belong to the command,
/// the values of options being skipped.
pub open spec fn foreign_option_from(args: Seq<Seq<char>>, i: int, scope: OptionScope) -> Option<
    Seq<char>,
>
    decreases args.len() - i,
{
    if i < 0 || i >= args.len() {
        None
    } else if !option_allowed(scope, option_name(args[i])) {
        Some(args[i])
    } else if takes_next_value(args[i]) && i + 1 < args.len() {
        foreign_option_from(args, i + 2, scope)
    } else {
        foreign_option_from(args, i + 1, scope)
    }
}

/// What `args` set for the command, or the error message: errors in reading
/// the options come first, then an option of another command.
pub open spec fn options_for(scope: OptionScope, args: Seq<Seq<char>>) -> Result<OptionValues, Seq<char>> {
    match options_of(args) {
        Err(e) => Err(e),
        Ok(v) => match foreign_option_from(args, 0, scope) {
            Some(a) => Err(unrecognized_option_message(a)),
            None => Ok(v),
        },
    }
}

/// The name of the option that `arg` gives.
fn option_name_of<'a>(arg: &'a str) -> (r: &'a str)
    ensures
        r@ == option_name(arg@),
{
    if starts_with_str(arg, "--delay-ms=") {
        "--delay-ms"
    } else if starts_with_str(arg, "--device=") {
        "--device"
    } else if starts_with_str(arg, "--user=") {
        "--user"
    } else {
        arg
    }
}

/// Whether the option `name` belongs to the command.
fn is_option_allowed(scope: &OptionScope, name: &str) -> (r: bool)
    ensures
        r == option_allowed(*scope, name@),
{
    match scope {
        OptionScope::Restart => equal_str(name, "--delay-ms") || equal_str(name, "--silent"),
        OptionScope::Install => equal_str(name, "--device") || equal_str(name, "--delay-ms")
            || equal_str(name, "--user") || equal_str(name, "--wake") || equal_str(name, "--no-wake"),
        OptionScope::Uninstall => equal_str(name, "--disable-channel"),
    }
}

/// Reads the options of a command (see `parse_options`); an option that
/// belongs to another command is refused as unrecognized.
pub fn parse_options_for(scope: OptionScope, args: &[String]) -> (r: Result<ParsedArgs, String>)
    ensures
        match options_for(scope, arg_texts(args@)) {
            Ok(v) => r matches Ok(p) && p@ == v,
            Err(e) => r matches Err(m) && m@ == e,
        },
        r matches Ok(p) ==> p.delay_ms <= MAX_DELAY_MS,
{
    let parsed = parse_options(args);
    match parsed {
        Err(e) => Err(e),
        Ok(p) => {
            let ghost texts = arg_texts(args@);
            assert(options_of(texts) == Ok::<OptionValues, Seq<char>>(p@));
            let mut i: usize = 0;
            while i < args.len()
                invariant
                    texts == arg_texts(args@),
                    texts.len() == args@.len(),
                    i <= args@.len(),
                    options_of(texts) == Ok::<OptionValues, Seq<char>>(p@),
                    foreign_option_from(texts, 0, scope) == foreign_option_from(texts, i as int, scope),
                decreases args.len() - i,
            {
                let arg: &str = args[i].as_str();
                assert(texts[i as int] == arg@);
                if !is_option_allowed(&scope, option_name_of(arg)) {
                    let mut m = String::from_str("Unrecognized option: '");
                    m.append(arg);
                    m.append("'");
                    assert(foreign_option_from(texts, i as int, scope) == Some(arg@));
                    return Err(m);
                }
                if (equal_str(arg, "--delay-ms") || equal_str(arg, "--device") || equal_str(arg, "--user"))
                    && args.len() - i >= 2 {
                    i = i + 2;
                } else {
                    i = i + 1;
                }
            }
            Ok(p)
        },
    }
}

/// The command that the first argument names.
pub enum Command {
    /// The non-interactive restart that the scheduled task runs: no argument
    /// at all, or options without a command, all of which are its options.
    DefaultRestart,
    Restart,
    Install,
    Uninstall,
    Status,
    Version,
    Help,
    /// A first argument that names no command and is no option.
    Unknown(String),
}

/// The words that ask for the version.
pub open spec fn is_version_word(w: Seq<char>) -> bool {
    w == "version"@ || w == "--version"@ || w == "-v"@ || w == "-V"@
}

/// The words that ask for help.
pub open spec fn is_help_word(w: Seq<char>) -> bool {
    w == "help"@ || w == "--help"@ || w == "-h"@
}

/// A word that names a command.
pub open spec fn is_command_word(w: Seq<char>) -> bool {
    w == "restart"@ || w == "install"@ || w == "uninstall"@ || w == "status"@ || is_version_word(w)
        || is_help_word(w)
}

/// A word that starts with `-`, as options do.
pub open spec fn is_option_word(w: Seq<char>) -> bool {
    w.len() > 0 && w[0] == '-'
}

/// Reads the command from the first argument; the options follow it. Options
/// given without a command (other than the version and help words) are those
/// of the default restart.
pub fn parse_command(args: &[String]) -> (r: Command)
    ensures
        r is DefaultRestart <==> args@.len() == 0 || (!is_command_word(args@[0]@) && is_option_word(
            args@[0]@,
        )),
        r is Restart <==> args@.len() > 0 && args@[0]@ == "restart"@,
        r is Install <==> args@.len() > 0 && args@[0]@ == "install"@,
        r is Uninstall <==> args@.len() > 0 && args@[0]@ == "uninstall"@,
        r is Status <==> args@.len() > 0 && args@[0]@ == "status"@,
        r is Version <==> args@.len() > 0 && is_version_word(args@[0]@),
        r is Help <==> args@.len() > 0 && is_help_word(args@[0]@),
        r is Unknown <==> args@.len() > 0 && !is_command_word(args@[0]@) && !is_option_word(
            args@[0]@,
        ),
        r matches Command::Unknown(w) ==> w@ == args@[0]@,
{
    if args.len() == 0 {
        return Command::DefaultRestart;
    }
    proof {
        reveal_strlit("restart");
        reveal_strlit("install");
        reveal_strlit("uninstall");
        reveal_strlit("status");
        reveal_strlit("version");
        reveal_strlit("--version");
        reveal_strlit("-v");
        reveal_strlit("-V");
        reveal_strlit("help");
        reveal_strlit("--help");
        reveal_strlit("-h");
        assert("restart"@[0] != "install"@[0]);
        assert("restart"@[0] != "version"@[0]);
        assert("install"@[0] != "version"@[0]);
        assert("uninstall"@[0] != "--version"@[0]);
        assert("status"@[0] != "--help"@[0]);
        assert("-v"@[1] != "-h"@[1]);
        assert("-V"@[1] != "-h"@[1]);
        assert("-V"@[1] != "-v"@[1]);
        assert("--help"@.len() != "--version"@.len());
    }
    let w: &str = args[0].as_str();
    if equal_str(w, "restart") {
        Command::Restart
    } else if equal_str(w, "install") {
        Command::Install
    } else if equal_str(w, "uninstall") {
        Command::Uninstall
    } else if equal_str(w, "status") {
        Command::Status
    } else if equal_str(w, "version") || equal_str(w, "--version") || equal_str(w, "-v") || equal_str(
        w,
        "-V",
    ) {
        Command::Version
    } else if equal_str(w, "help") || equal_str(w, "--help") || equal_str(w, "-h") {
        Command::Help
    } else if w.unicode_len() > 0 && w.get_char(0) == '-' {
        Command::DefaultRestart
    } else {
        Command::Unknown(String::from_str(w))
    }
}

/// An option that asks for help.
pub open spec fn is_help_flag(w: Seq<char>) -> bool {
    w == "--help"@ || w == "-h"@
}

/// Whether the options of a command ask for help (`--help` or `-h` anywhere
/// among them), in which case the command prints the usage and does nothing
/// else.
pub fn asks_for_help(args: &[String]) -> (r: bool)
    ensures
        r == exists|i: int| 0 <= i < args@.len() && is_help_flag(#[trigger] args@[i]@),
{
    let mut i: usize = 0;
    while i < args.len()
        invariant
            i <= args@.len(),
            forall|t: int| 0 <= t < i ==> !is_help_flag(#[trigger] args@[t]@),
        decreases args.len() - i,
    {
        let w: &str = args[i].as_str();
        if equal_str(w, "--help") || equal_str(w, "-h") {
            assert(is_help_flag(args@[i as int]@));
            return true;
        }
        i = i + 1;
    }
    false
}


/// `--delay-ms=<MS>` reads as `--delay-ms <MS>`.
#[verifier::spinoff_prover]
proof fn lemma_joined_delay(scope: OptionScope, v: Seq<char>)
    ensures
        options_of(seq!["--delay-ms="@ + v]) == options_of(seq!["--delay-ms"@, v]),
        option_allowed(scope, "--delay-ms"@) ==> options_for(scope, seq!["--delay-ms="@ + v])
            == options_for(scope, seq!["--delay-ms"@, v]),
        !option_allowed(scope, "--delay-ms"@) ==> options_for(scope, seq!["--delay-ms="@ + v]) is Err
            && options_for(scope, seq!["--delay-ms"@, v]) is Err,
{
    reveal_strlit("--delay-ms");
    reveal_strlit("--delay-ms=");
    reveal_strlit("--device");
    reveal_strlit("--device=");
    reveal_strlit("--user");
    reveal_strlit("--user=");
    let a = seq!["--delay-ms="@ + v];
    let b = seq!["--delay-ms"@, v];
    let arg = "--delay-ms="@ + v;
    assert("--delay-ms="@.is_prefix_of(arg));
    assert(arg[2] == 'd' && arg[4] == 'l');
    assert(arg != "--delay-ms"@) by {
        assert(arg.len() != "--delay-ms"@.len());
    }
    assert(arg != "--device"@) by {
        assert(arg[4] != "--device"@[4]);
    }
    assert(arg != "--user"@) by {
        assert(arg[2] != "--user"@[2]);
    }
    assert(arg.skip("--delay-ms="@.len() as int) =~= v);
    assert(a[0] == arg);
    let start = default_option_values();
    lemma_step_delay(b, 0, start);
    if let Ok(d) = delay_setting(v) {
        assert(options_from(a, 1, with_delay(start, d)) == Ok::<OptionValues, Seq<char>>(
            with_delay(start, d),
        ));
        assert(options_from(b, 2, with_delay(start, d)) == Ok::<OptionValues, Seq<char>>(
            with_delay(start, d),
        ));
    }
    assert(option_name(arg) == "--delay-ms"@);
    assert(!takes_next_value(arg));
    assert(foreign_option_from(a, 1, scope) is None);
    assert(foreign_option_from(b, 2, scope) is None);
    assert(!"--delay-ms="@.is_prefix_of("--delay-ms"@)) by {
        assert("--delay-ms="@.len() > "--delay-ms"@.len());
    }
    assert(!"--device="@.is_prefix_of("--delay-ms"@)) by {
        assert("--device="@[4] != "--delay-ms"@[4]);
    }
    assert(!"--user="@.is_prefix_of("--delay-ms"@)) by {
        assert("--user="@[2] != "--delay-ms"@[2]);
    }
    assert(option_name("--delay-ms"@) == "--delay-ms"@);
    assert(takes_next_value("--delay-ms"@));
}

/// `--device=<NAME>` reads as `--device <NAME>`.
#[verifier::spinoff_prover]
proof fn lemma_joined_device(scope: OptionScope, v: Seq<char>)
    ensures
        options_of(seq!["--device="@ + v]) == options_of(seq!["--device"@, v]),
        option_allowed(scope, "--device"@) ==> options_for(scope, seq!["--device="@ + v])
            == options_for(scope, seq!["--device"@, v]),
        !option_allowed(scope, "--device"@) ==> options_for(scope, seq!["--device="@ + v]) is Err
            && options_for(scope, seq!["--device"@, v]) is Err,
{
    reveal_strlit("--delay-ms");
    reveal_strlit("--delay-ms=");
    reveal_strlit("--device");
    reveal_strlit("--device=");
    reveal_strlit("--user");
    reveal_strlit("--user=");
    let a = seq!["--device="@ + v];
    let b = seq!["--device"@, v];
    let arg = "--device="@ + v;
    assert("--device="@.is_prefix_of(arg));
    assert(arg[4] == 'v' && "--delay-ms"@[4] == 'l');
    assert(arg != "--delay-ms"@);
    assert(!"--delay-ms="@.is_prefix_of(arg)) by {
        assert("--delay-ms="@[4] != arg[4]);
    }
    assert(arg != "--device"@) by {
        assert(arg.len() != "--device"@.len());
    }
    assert(arg != "--user"@) by {
        assert(arg[2] != "--user"@[2]);
    }
    assert(arg.skip("--device="@.len() as int) =~= v);
    assert(a[0] == arg);
    let start = default_option_values();
    lemma_step_device(b, 0, start);
    if let Ok(d) = device_setting(v) {
        assert(options_from(a, 1, with_device(start, d)) == Ok::<OptionValues, Seq<char>>(
            with_device(start, d),
        ));
        assert(options_from(b, 2, with_device(start, d)) == Ok::<OptionValues, Seq<char>>(
            with_device(start, d),
        ));
    }
    assert(option_name(arg) == "--device"@);
    assert(foreign_option_from(a, 1, scope) is None);
    assert(foreign_option_from(b, 2, scope) is None);
    assert(!"--delay-ms="@.is_prefix_of("--device"@)) by {
        assert("--delay-ms="@.len() > "--device"@.len());
    }
    assert(!"--device="@.is_prefix_of("--device"@)) by {
        assert("--device="@.len() > "--device"@.len());
    }
    assert(!"--user="@.is_prefix_of("--device"@)) by {
        assert("--user="@[2] != "--device"@[2]);
    }
    assert(option_name("--device"@) == "--device"@);
}

/// `--user=<NAME>` reads as `--user <NAME>`.
#[verifier::spinoff_prover]
proof fn lemma_joined_user(scope: OptionScope, v: Seq<char>)
    ensures
        options_of(seq!["--user="@ + v]) == options_of(seq!["--user"@, v]),
        option_allowed(scope, "--user"@) ==> options_for(scope, seq!["--user="@ + v])
            == options_for(scope, seq!["--user"@, v]),
        !option_allowed(scope, "--user"@) ==> options_for(scope, seq!["--user="@ + v]) is Err
            && options_for(scope, seq!["--user"@, v]) is Err,
{
    reveal_strlit("--delay-ms");
    reveal_strlit("--delay-ms=");
    reveal_strlit("--device");
    reveal_strlit("--device=");
    reveal_strlit("--user");
    reveal_strlit("--user=");
    let a = seq!["--user="@ + v];
    let b = seq!["--user"@, v];
    let arg = "--user="@ + v;
    assert("--user="@.is_prefix_of(arg));
    assert(arg[2] == 'u');
    assert(arg != "--delay-ms"@) by {
        assert(arg[2] != "--delay-ms"@[2]);
    }
    assert(!"--delay-ms="@.is_prefix_of(arg)) by {
        assert("--delay-ms="@[2] != arg[2]);
    }
    assert(arg != "--device"@) by {
        assert(arg[2] != "--device"@[2]);
    }
    assert(!"--device="@.is_prefix_of(arg)) by {
        assert("--device="@[2] != arg[2]);
    }
    assert(arg != "--user"@) by {
        assert(arg.len() != "--user"@.len());
    }
    assert(arg.skip("--user="@.len() as int) =~= v);
    assert(a[0] == arg);
    let start = default_option_values();
    lemma_step_user(b, 0, start);
    if let Ok(u) = user_setting(v) {
        assert(options_from(a, 1, with_user(start, u)) == Ok::<OptionValues, Seq<char>>(
            with_user(start, u),
        ));
        assert(options_from(b, 2, with_user(start, u)) == Ok::<OptionValues, Seq<char>>(
            with_user(start, u),
        ));
    }
    assert(option_name(arg) == "--user"@);
    assert(foreign_option_from(a, 1, scope) is None);
    assert(foreign_option_from(b, 2, scope) is None);
    assert(!"--delay-ms="@.is_prefix_of("--user"@)) by {
        assert("--delay-ms="@.len() > "--user"@.len());
    }
    assert(!"--device="@.is_prefix_of("--user"@)) by {
        assert("--device="@.len() > "--user"@.len());
    }
    assert(!"--user="@.is_prefix_of("--user"@)) by {
        assert("--user="@.len() > "--user"@.len());
    }
    assert(option_name("--user"@) == "--user"@);
}

/// An option with a value means the same written as `--name=value` or as
/// `--name value`: for every value, and in the options of every command that
/// takes the option, both read to the same result (the same settings, or the
/// same error); a command that does not take the option refuses both forms.
pub proof fn lemma_joined_and_separate_values_agree(scope: OptionScope, v: Seq<char>)
    ensures
        options_of(seq!["--delay-ms="@ + v]) == options_of(seq!["--delay-ms"@, v]),
        options_of(seq!["--device="@ + v]) == options_of(seq!["--device"@, v]),
        options_of(seq!["--user="@ + v]) == options_of(seq!["--user"@, v]),
        option_allowed(scope, "--delay-ms"@) ==> options_for(scope, seq!["--delay-ms="@ + v])
            == options_for(scope, seq!["--delay-ms"@, v]),
        option_allowed(scope, "--device"@) ==> options_for(scope, seq!["--device="@ + v])
            == options_for(scope, seq!["--device"@, v]),
        option_allowed(scope, "--user"@) ==> options_for(scope, seq!["--user="@ + v])
            == options_for(scope, seq!["--user"@, v]),
        !option_allowed(scope, "--device"@) ==> options_for(scope, seq!["--device="@ + v]) is Err
            && options_for(scope, seq!["--device"@, v]) is Err,
        option_allowed(OptionScope::Install, "--device"@) && option_allowed(
            OptionScope::Install,
            "--delay-ms"@,
        ) && option_allowed(OptionScope::Install, "--user"@) && option_allowed(
            OptionScope::Restart,
            "--delay-ms"@,
        ),
{
    lemma_joined_delay(scope, v);
    lemma_joined_device(scope, v);
    lemma_joined_user(scope, v);
}

} // verus!
