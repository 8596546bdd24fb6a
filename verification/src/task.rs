use vstd::prelude::*;

use crate::decimal::{decimal, lemma_decimal, lemma_parse_decimal, write_decimal};
use crate::device::{
    lemma_trim_role_space, lemma_trimmed_is_own_trim, all_ascii_digits, endpoint_role, is_endpoint_role, strip_endpoint_index,
    strip_endpoint_index_str, strip_instance_suffix, strip_instance_suffix_str,
};
use crate::options::{
    default_option_values, delay_setting, has_both_quotes, lemma_step_delay, lemma_step_silent, options_from, options_of, with_delay, with_silent, OptionValues,
    DEFAULT_DELAY_MS, MAX_DELAY_MS,
};
use crate::text::{
    equal_str, find, find_str, is_trimmed, lemma_find_first, lemma_find_from, lemma_rfind_char, occurs_at, push_char,
    rfind_char, rfind_char_in, trim, trim_str,
};
use crate::xml::{append_xml_escaped, xml_escaped};

verus! {

/// Name of the Task Scheduler task.
pub const TASK_NAME: &'static str = "Earplugger_AutoRestart";

/// Task XML up to the event subscription.
pub const TASK_XML_HEAD: &'static str = r#"<?xml version="1.0" encoding="UTF-16"?>
<Task version="1.4" xmlns="http://schemas.microsoft.com/windows/2004/02/mit/task">
  <RegistrationInfo>
    <Description>Earplugger - Auto-restart Voicemeeter audio engine on USB/KVM reconnect</Description>
    <Author>Earplugger</Author>
  </RegistrationInfo>
  <Triggers>
    <EventTrigger>
      <Enabled>true</Enabled>
      <Subscription>"#;

/// Task XML after the event subscription of the audio trigger.
pub const TASK_XML_AFTER_SUBSCRIPTION: &'static str = r#"</Subscription>
    </EventTrigger>"#;

/// Task XML of the trigger on wake from sleep, up to its event subscription.
pub const WAKE_TRIGGER_HEAD: &'static str = r#"
    <EventTrigger>
      <Enabled>true</Enabled>
      <Subscription>"#;

/// Event query of the trigger on wake from sleep: the system returned from a
/// low power state (event 1), or resumed from sleep or modern standby (events
/// 107 and 507).
pub const WAKE_SUBSCRIPTION: &'static str = r#"<QueryList><Query Id="0" Path="System"><Select Path="System">*[System[Provider[@Name='Microsoft-Windows-Power-Troubleshooter'] and (EventID=1)]]</Select><Select Path="System">*[System[Provider[@Name='Microsoft-Windows-Kernel-Power'] and (EventID=107 or EventID=507)]]</Select></Query></QueryList>"#;

/// Task XML between the triggers and the principal's user, if any.
pub const TASK_XML_BEFORE_PRINCIPAL: &'static str = r#"
  </Triggers>
  <Principals>
    <Principal id="Author">"#;

/// Task XML between the principal's user and the execution time limit.
pub const TASK_XML_BEFORE_TIME_LIMIT: &'static str = r#"
      <LogonType>InteractiveToken</LogonType>
      <RunLevel>LeastPrivilege</RunLevel>
    </Principal>
  </Principals>
  <Settings>
    <MultipleInstancesPolicy>IgnoreNew</MultipleInstancesPolicy>
    <DisallowStartIfOnBatteries>false</DisallowStartIfOnBatteries>
    <StopIfGoingOnBatteries>false</StopIfGoingOnBatteries>
    <AllowHardTerminate>true</AllowHardTerminate>
    <StartWhenAvailable>false</StartWhenAvailable>
    <RunOnlyIfNetworkAvailable>false</RunOnlyIfNetworkAvailable>
    <IdleSettings>
      <StopOnIdleEnd>false</StopOnIdleEnd>
      <RestartOnIdle>false</RestartOnIdle>
    </IdleSettings>
    <AllowStartOnDemand>true</AllowStartOnDemand>
    <Enabled>true</Enabled>
    <Hidden>true</Hidden>
    <RunOnlyIfIdle>false</RunOnlyIfIdle>
    <WakeToRun>false</WakeToRun>
    <ExecutionTimeLimit>"#;

/// Task XML between the execution time limit and the executable path.
pub const TASK_XML_BEFORE_COMMAND: &'static str = r#"</ExecutionTimeLimit>
    <Priority>4</Priority>
  </Settings>
  <Actions Context="Author">
    <Exec>
      <Command>"#;

/// Task XML between the executable path and the arguments element.
pub const TASK_XML_BEFORE_ARGUMENTS: &'static str = r#"</Command>
      "#;

/// Task XML after the arguments element.
pub const TASK_XML_TAIL: &'static str = r#"
    </Exec>
  </Actions>
</Task>"#;

/// Event query up to the device filter: device state changes (event 65).
pub const SUBSCRIPTION_HEAD: &'static str = r#"<QueryList><Query Id="0" Path="Microsoft-Windows-Audio/Operational"><Select Path="Microsoft-Windows-Audio/Operational">*[System[Provider[@Name='Microsoft-Windows-Audio'] and (EventID=65)]]"#;

/// Event query after the device filter: audio engine and driver faults
/// (event 4) are selected too.
pub const SUBSCRIPTION_TAIL: &'static str = r#"</Select><Select Path="Microsoft-Windows-Audio/Operational">*[System[Provider[@Name='Microsoft-Windows-Audio'] and (EventID=4)]]</Select></Query></QueryList>"#;

/// Device filter up to the names it matches.
pub const DEVICE_FILTER_HEAD: &'static str = " and *[EventData[(";

/// Device filter after the names it matches: render and capture endpoints
/// becoming active.
pub const DEVICE_FILTER_TAIL: &'static str = ") and (Data[@Name='flow']='0' or Data[@Name='flow']='1') and Data[@Name='NewState']='1']]";

/// Filter that matches any render or capture endpoint becoming active.
pub const ANY_DEVICE_FILTER: &'static str = " and *[EventData[(Data[@Name='flow']='0' or Data[@Name='flow']='1') and Data[@Name='NewState']='1']]";

/// Test of the device name, before the literal it is compared with.
pub const DEVICE_NAME_TEST: &'static str = "Data[@Name='DeviceName']=";

/// Joins the tests of the names a filter accepts.
pub const OR_SEPARATOR: &'static str = " or ";

/// `c` without its control characters (those below U+0020), which an XML
/// parser refuses.
pub open spec fn without_controls(c: Seq<char>) -> Seq<char>
    decreases c.len(),
{
    if c.len() == 0 {
        c
    } else if (c.last() as u32) < 0x20 {
        without_controls(c.drop_last())
    } else {
        without_controls(c.drop_last()).push(c.last())
    }
}

/// An XPath string literal for `c`, control characters left out: in double
/// quotes when it holds a `'`, in single quotes otherwise (the event log's
/// XPath has no escapes and no `concat()`, so a name holding both quotes cannot
/// be written).
pub open spec fn xpath_literal(c: Seq<char>) -> Seq<char> {
    if c.contains('\'') {
        seq!['"'] + without_controls(c) + seq!['"']
    } else {
        seq!['\''] + without_controls(c) + seq!['\'']
    }
}

/// The test that the device name is `c`.
pub open spec fn name_test(c: Seq<char>) -> Seq<char> {
    DEVICE_NAME_TEST@ + xpath_literal(c)
}

/// The tests of the names `cs`, joined by `or`.
pub open spec fn or_chain(cs: Seq<Seq<char>>) -> Seq<char>
    decreases cs.len(),
{
    if cs.len() == 0 {
        Seq::empty()
    } else if cs.len() == 1 {
        name_test(cs[0])
    } else {
        or_chain(cs.drop_last()) + OR_SEPARATOR@ + name_test(cs.last())
    }
}

/// `list` with `c` added at the end, unless `c` is empty or already there.
pub open spec fn with_candidate(list: Seq<Seq<char>>, c: Seq<char>) -> Seq<Seq<char>> {
    if c.len() > 0 && !list.contains(c) {
        list.push(c)
    } else {
        list
    }
}

/// The names under which Windows may log the device `d`: the name as given;
/// when it holds parentheses (after dropping an instance suffix such as
/// ` (1)`), the hardware name inside them without an endpoint index, the text
/// inside them, and the text before them unless that is an endpoint role name.
/// Empty names and repeats are left out.
pub open spec fn name_candidates(d: Seq<char>) -> Seq<Seq<char>> {
    let base = strip_instance_suffix(d);
    let first = seq![d];
    match find(base, seq!['(']) {
        Some(start) => match rfind_char(base, ')') {
            Some(end) => if end > start {
                let inner = trim(base.subrange(start + 1, end));
                let outer = trim(base.take(start));
                let listed = with_candidate(
                    with_candidate(first, strip_endpoint_index(inner)),
                    inner,
                );
                if is_endpoint_role(outer) {
                    listed
                } else {
                    with_candidate(listed, outer)
                }
            } else {
                first
            },
            None => first,
        },
        None => first,
    }
}

/// The event filter: on any of the names of the device, or on any endpoint.
pub open spec fn filter_clause(device: Option<Seq<char>>) -> Seq<char> {
    match device {
        Some(d) => DEVICE_FILTER_HEAD@ + or_chain(name_candidates(d)) + DEVICE_FILTER_TAIL@,
        None => ANY_DEVICE_FILTER@,
    }
}

/// The event query of the trigger.
pub open spec fn subscription(device: Option<Seq<char>>) -> Seq<char> {
    SUBSCRIPTION_HEAD@ + filter_clause(device) + SUBSCRIPTION_TAIL@
}

/// The number of seconds a run may take: 30, and one more per whole second of
/// settling delay (30 s at the default delay, 60 s at the largest).
pub open spec fn time_limit_seconds(delay_ms: u64) -> nat {
    (30 + delay_ms / 1000) as nat
}

/// The execution time limit, as an XML duration such as `PT30S`.
pub open spec fn time_limit(delay_ms: u64) -> Seq<char> {
    "PT"@ + decimal(time_limit_seconds(delay_ms)) + "S"@
}

/// Does `c` occur in `s`?
fn contains_char(s: &str, c: char) -> (r: bool)
    ensures
        r == s@.contains(c),
{
    let n = s.unicode_len();
    let mut i: usize = 0;
    while i < n
        invariant
            n == s@.len(),
            i <= n,
            forall|t: int| 0 <= t < i ==> s@[t] != c,
        decreases n - i,
    {
        if s.get_char(i) == c {
            return true;
        }
        i = i + 1;
    }
    false
}

/// Is `c` one of the names in `list`?
fn listed(list: &Vec<String>, c: &str) -> (r: bool)
    ensures
        r == list@.map_values(|l: String| l@).contains(c@),
{
    let ghost views = list@.map_values(|l: String| l@);
    let mut k: usize = 0;
    while k < list.len()
        invariant
            views == list@.map_values(|l: String| l@),
            k <= list.len(),
            forall|j: int| 0 <= j < k ==> views[j] != c@,
        decreases list.len() - k,
    {
        if equal_str(list[k].as_str(), c) {
            assert(views[k as int] == c@);
            return true;
        }
        k = k + 1;
    }
    false
}

/// Adds `c` to `list` unless it is empty or already there.
fn add_candidate(list: &mut Vec<String>, c: &str)
    ensures
        final(list)@.map_values(|l: String| l@) == with_candidate(
            old(list)@.map_values(|l: String| l@),
            c@,
        ),
{
    if c.unicode_len() > 0 && !listed(list, c) {
        let ghost before = list@;
        list.push(String::from_str(c));
        assert(list@.map_values(|l: String| l@) =~= before.map_values(|l: String| l@).push(c@));
    }
}

/// The names under which Windows may log the device `d`.
pub fn name_candidates_of(d: &str) -> (r: Vec<String>)
    ensures
        r@.map_values(|l: String| l@) == name_candidates(d@),
{
    proof {
        reveal_strlit("(");
        assert("("@ =~= seq!['(']);
    }
    let mut list: Vec<String> = Vec::new();
    list.push(String::from_str(d));
    assert(list@.map_values(|l: String| l@) =~= seq![d@]);
    let base = strip_instance_suffix_str(d);
    if let Some(start) = find_str(base, "(") {
        if let Some(end) = rfind_char_in(base, ')') {
            if end > start {
                let inner = trim_str(base.substring_char(start + 1, end));
                assert(base@.subrange(0, start as int) =~= base@.take(start as int));
                let outer = trim_str(base.substring_char(0, start));
                add_candidate(&mut list, strip_endpoint_index_str(inner));
                add_candidate(&mut list, inner);
                if !endpoint_role(outer) {
                    add_candidate(&mut list, outer);
                }
            }
        }
    }
    list
}

/// Appends `c` without its control characters to `out`.
fn append_without_controls(out: &mut String, c: &str)
    ensures
        final(out)@ == old(out)@ + without_controls(c@),
{
    let n = c.unicode_len();
    let mut i: usize = 0;
    assert(c@.take(0) =~= Seq::<char>::empty());
    assert(old(out)@ + Seq::<char>::empty() =~= old(out)@);
    while i < n
        invariant
            n == c@.len(),
            i <= n,
            out@ == old(out)@ + without_controls(c@.take(i as int)),
        decreases n - i,
    {
        let ch = c.get_char(i);
        let ghost before = out@;
        assert(c@.take(i + 1).drop_last() =~= c@.take(i as int));
        assert(c@.take(i + 1).last() == ch);
        if (ch as u32) >= 0x20 {
            push_char(out, ch);
            assert(out@ =~= old(out)@ + without_controls(c@.take(i + 1)));
        }
        i = i + 1;
    }
    assert(c@.take(n as int) =~= c@);
}

/// Appends the XPath literal for `c` to `out`.
fn append_xpath_literal(out: &mut String, c: &str)
    ensures
        final(out)@ == old(out)@ + xpath_literal(c@),
{
    if contains_char(c, '\'') {
        push_char(out, '"');
        append_without_controls(out, c);
        push_char(out, '"');
    } else {
        push_char(out, '\'');
        append_without_controls(out, c);
        push_char(out, '\'');
    }
    assert(out@ =~= old(out)@ + xpath_literal(c@));
}

/// Appends the tests of the names `cs`, joined by `or`, to `out`.
fn append_or_chain(out: &mut String, cs: &Vec<String>)
    ensures
        final(out)@ == old(out)@ + or_chain(cs@.map_values(|l: String| l@)),
{
    let ghost views = cs@.map_values(|l: String| l@);
    let mut k: usize = 0;
    assert(views.take(0) =~= Seq::<Seq<char>>::empty());
    assert(old(out)@ + Seq::<char>::empty() =~= old(out)@);
    while k < cs.len()
        invariant
            views == cs@.map_values(|l: String| l@),
            k <= cs.len(),
            out@ == old(out)@ + or_chain(views.take(k as int)),
        decreases cs.len() - k,
    {
        let ghost before = out@;
        if k > 0 {
            out.append(OR_SEPARATOR);
        }
        out.append(DEVICE_NAME_TEST);
        append_xpath_literal(out, cs[k].as_str());
        proof {
            let t = views.take(k + 1);
            assert(t.drop_last() =~= views.take(k as int));
            assert(t.last() == cs@[k as int]@);
            if k == 0 {
                assert(t.len() == 1);
                assert(out@ =~= old(out)@ + or_chain(t));
            } else {
                assert(out@ =~= old(out)@ + (or_chain(views.take(k as int)) + OR_SEPARATOR@ + name_test(
                    t.last(),
                )));
            }
        }
        k = k + 1;
    }
    assert(views.take(cs.len() as int) =~= views);
}

/// The arguments element: `restart`, with the delay when it is not the
/// default, and `--silent`.
pub open spec fn arguments_element(delay_ms: u64) -> Seq<char> {
    if delay_ms != DEFAULT_DELAY_MS {
        "<Arguments>restart --delay-ms "@ + decimal(delay_ms as nat) + " --silent</Arguments>"@
    } else {
        "<Arguments>restart --silent</Arguments>"@
    }
}

/// The trigger on wake from sleep, when `wake`; nothing otherwise.
pub open spec fn wake_trigger(wake: bool) -> Seq<char> {
    if wake {
        WAKE_TRIGGER_HEAD@ + xml_escaped(WAKE_SUBSCRIPTION@) + TASK_XML_AFTER_SUBSCRIPTION@
    } else {
        Seq::empty()
    }
}

/// The principal's user element, when a user is given; nothing otherwise, so
/// that the task runs as whoever is logged on.
pub open spec fn user_element(user: Option<Seq<char>>) -> Seq<char> {
    match user {
        Some(u) => "\n      <UserId>"@ + xml_escaped(u) + "</UserId>"@,
        None => Seq::empty(),
    }
}

/// The Task Scheduler XML up to the arguments element.
pub open spec fn task_xml_prefix(
    exe_path: Seq<char>,
    device: Option<Seq<char>>,
    delay_ms: u64,
    user: Option<Seq<char>>,
    wake: bool,
) -> Seq<char> {
    TASK_XML_HEAD@ + xml_escaped(subscription(device)) + TASK_XML_AFTER_SUBSCRIPTION@ + wake_trigger(
        wake,
    ) + TASK_XML_BEFORE_PRINCIPAL@ + user_element(user) + TASK_XML_BEFORE_TIME_LIMIT@ + time_limit(
        delay_ms,
    ) + TASK_XML_BEFORE_COMMAND@ + xml_escaped(exe_path) + TASK_XML_BEFORE_ARGUMENTS@
}

/// The Task Scheduler XML for the triggers.
pub open spec fn task_xml(
    exe_path: Seq<char>,
    device: Option<Seq<char>>,
    delay_ms: u64,
    user: Option<Seq<char>>,
    wake: bool,
) -> Seq<char> {
    task_xml_prefix(exe_path, device, delay_ms, user, wake) + arguments_element(delay_ms)
        + TASK_XML_TAIL@
}

/// Words joined by single spaces, as on a command line.
pub open spec fn joined_by_spaces(words: Seq<Seq<char>>) -> Seq<char>
    decreases words.len(),
{
    if words.len() == 0 {
        Seq::empty()
    } else if words.len() == 1 {
        words[0]
    } else {
        joined_by_spaces(words.drop_last()) + seq![' '] + words.last()
    }
}

/// The options that the scheduled task passes to `restart` for a delay.
pub open spec fn task_restart_options(delay_ms: u64) -> Seq<Seq<char>> {
    if delay_ms != DEFAULT_DELAY_MS {
        seq!["--delay-ms"@, decimal(delay_ms as nat), "--silent"@]
    } else {
        seq!["--silent"@]
    }
}

/// The installed task restarts quietly with the delay it was installed with:
/// its arguments element holds the words `restart` and `task_restart_options`,
/// none of which holds a space, and reading those options gives back the delay,
/// with output suppressed and nothing else changed.
pub proof fn lemma_task_arguments_round_trip(delay_ms: u64)
    requires
        delay_ms <= MAX_DELAY_MS,
    ensures
        arguments_element(delay_ms) == "<Arguments>"@ + joined_by_spaces(
            seq!["restart"@] + task_restart_options(delay_ms),
        ) + "</Arguments>"@,
        forall|i: int, j: int|
            0 <= i < (seq!["restart"@] + task_restart_options(delay_ms)).len() && 0 <= j < (seq![
                "restart"@,
            ] + task_restart_options(delay_ms))[i].len() ==> (seq!["restart"@] + task_restart_options(
                delay_ms,
            ))[i][j] != ' ',
        options_of(task_restart_options(delay_ms)) == Ok::<OptionValues, Seq<char>>(
            with_silent(with_delay(default_option_values(), delay_ms)),
        ),
{
    lemma_task_arguments_text(delay_ms);
    lemma_task_restart_options_read(delay_ms);
}

/// The arguments element is the words of the run joined by single spaces, and
/// no word holds a space.
proof fn lemma_task_arguments_text(delay_ms: u64)
    ensures
        arguments_element(delay_ms) == "<Arguments>"@ + joined_by_spaces(
            seq!["restart"@] + task_restart_options(delay_ms),
        ) + "</Arguments>"@,
        forall|i: int, j: int|
            0 <= i < (seq!["restart"@] + task_restart_options(delay_ms)).len() && 0 <= j < (seq![
                "restart"@,
            ] + task_restart_options(delay_ms))[i].len() ==> (seq!["restart"@] + task_restart_options(
                delay_ms,
            ))[i][j] != ' ',
{
    reveal_strlit("<Arguments>restart --delay-ms ");
    reveal_strlit(" --silent</Arguments>");
    reveal_strlit("<Arguments>restart --silent</Arguments>");
    reveal_strlit("</Arguments>");
    reveal_strlit("<Arguments>");
    reveal_strlit("restart");
    reveal_strlit("--delay-ms");
    reveal_strlit("--silent");
    let words = seq!["restart"@] + task_restart_options(delay_ms);
    if delay_ms != DEFAULT_DELAY_MS {
        lemma_decimal(delay_ms as nat);
        let d = decimal(delay_ms as nat);
        assert(words.drop_last() =~= seq!["restart"@, "--delay-ms"@, d]);
        assert(words.drop_last().drop_last() =~= seq!["restart"@, "--delay-ms"@]);
        assert(words.drop_last().drop_last().drop_last() =~= seq!["restart"@]);
        assert("<Arguments>restart --delay-ms "@ =~= "<Arguments>"@ + ("restart"@ + seq![' ']
            + "--delay-ms"@ + seq![' ']));
        assert(" --silent</Arguments>"@ =~= seq![' '] + "--silent"@ + "</Arguments>"@);
        assert(joined_by_spaces(words.drop_last().drop_last().drop_last()) == "restart"@);
        assert(joined_by_spaces(words.drop_last().drop_last()) == "restart"@ + seq![' '] + "--delay-ms"@);
        assert(joined_by_spaces(words.drop_last()) == "restart"@ + seq![' '] + "--delay-ms"@ + seq![' '] + d);
        assert(joined_by_spaces(words) == "restart"@ + seq![' '] + "--delay-ms"@ + seq![' '] + d
            + seq![' '] + "--silent"@);
        assert(arguments_element(delay_ms) =~= "<Arguments>"@ + joined_by_spaces(words)
            + "</Arguments>"@);
        assert forall|i: int, j: int| 0 <= i < words.len() && 0 <= j < words[i].len() implies words[i][j]
            != ' ' by {
            if i == 2 {
                assert(all_ascii_digits(d));
                assert('0' <= d[j] <= '9');
            }
        }
    } else {
        assert(words =~= seq!["restart"@, "--silent"@]);
        assert(words.drop_last() =~= seq!["restart"@]);
        assert(joined_by_spaces(words.drop_last()) == "restart"@);
        assert(joined_by_spaces(words) == "restart"@ + seq![' '] + "--silent"@);
        assert("<Arguments>restart --silent</Arguments>"@ =~= "<Arguments>"@ + ("restart"@ + seq![' ']
            + "--silent"@) + "</Arguments>"@);
    }
}

/// Reading the options of the run gives back the delay, with output
/// suppressed and nothing else changed.
proof fn lemma_task_restart_options_read(delay_ms: u64)
    requires
        delay_ms <= MAX_DELAY_MS,
    ensures
        options_of(task_restart_options(delay_ms)) == Ok::<OptionValues, Seq<char>>(
            with_silent(with_delay(default_option_values(), delay_ms)),
        ),
{
    reveal_strlit("--delay-ms");
    reveal_strlit("--silent");
    let opts = task_restart_options(delay_ms);
    let start = default_option_values();
    if delay_ms != DEFAULT_DELAY_MS {
        lemma_decimal(delay_ms as nat);
        lemma_parse_decimal(delay_ms);
        let d = decimal(delay_ms as nat);
        assert(opts[0] == "--delay-ms"@ && opts[1] == d && opts[2] == "--silent"@);
        assert(delay_setting(d) == Ok::<u64, Seq<char>>(delay_ms));
        lemma_step_delay(opts, 0, start);
        let w = with_delay(start, delay_ms);
        lemma_step_silent(opts, 2, w);
        assert(options_from(opts, 3, with_silent(w)) == Ok::<OptionValues, Seq<char>>(with_silent(w)));
        assert(options_from(opts, 2, w) == Ok::<OptionValues, Seq<char>>(with_silent(w)));
        assert(options_from(opts, 0, start) == Ok::<OptionValues, Seq<char>>(with_silent(w)));
    } else {
        assert(opts[0] == "--silent"@);
        assert(with_delay(start, delay_ms) == start);
        lemma_step_silent(opts, 0, start);
        assert(options_from(opts, 1, with_silent(start)) == Ok::<OptionValues, Seq<char>>(
            with_silent(start),
        ));
    }
}

/// The Task Scheduler XML that runs `exe_path restart --silent` when an audio
/// endpoint becomes active (filtered on the names of `device_filter` when
/// given) or the audio engine faults, and also on wake from sleep when `wake`.
/// The event queries, the path and the user are XML-escaped; the task runs as
/// `user` when given, else as whoever is logged on; the run may take 30 s plus
/// a second per second of delay; the delay is passed on when it is not 150 ms.
/// A device name holding both `'` and `"` cannot be written as an XPath literal
/// of the event log, so such a filter is not accepted.
pub fn generate_task_xml(
    exe_path: &str,
    device_filter: Option<&str>,
    delay_ms: u64,
    user: Option<&str>,
    wake: bool,
) -> (r: String)
    requires
        device_filter matches Some(d) ==> !has_both_quotes(d@),
    ensures
        r@ == task_xml(exe_path@, str_view(device_filter), delay_ms, str_view(user), wake),
{
    let ghost device = str_view(device_filter);
    let mut sub = String::from_str(SUBSCRIPTION_HEAD);
    match device_filter {
        Some(dev) => {
            sub.append(DEVICE_FILTER_HEAD);
            let names = name_candidates_of(dev);
            append_or_chain(&mut sub, &names);
            sub.append(DEVICE_FILTER_TAIL);
        },
        None => {
            sub.append(ANY_DEVICE_FILTER);
        },
    }
    sub.append(SUBSCRIPTION_TAIL);
    assert(sub@ =~= subscription(device));
    let mut xml = String::from_str(TASK_XML_HEAD);
    append_xml_escaped(&mut xml, sub.as_str());
    xml.append(TASK_XML_AFTER_SUBSCRIPTION);
    let ghost before_wake = xml@;
    if wake {
        xml.append(WAKE_TRIGGER_HEAD);
        append_xml_escaped(&mut xml, WAKE_SUBSCRIPTION);
        xml.append(TASK_XML_AFTER_SUBSCRIPTION);
    }
    assert(xml@ =~= before_wake + wake_trigger(wake));
    xml.append(TASK_XML_BEFORE_PRINCIPAL);
    let ghost before_user = xml@;
    match user {
        Some(u) => {
            xml.append("\n      <UserId>");
            append_xml_escaped(&mut xml, u);
            xml.append("</UserId>");
        },
        None => {},
    }
    assert(xml@ =~= before_user + user_element(str_view(user)));
    xml.append(TASK_XML_BEFORE_TIME_LIMIT);
    xml.append("PT");
    write_decimal(30 + delay_ms / 1000, &mut xml);
    xml.append("S");
    xml.append(TASK_XML_BEFORE_COMMAND);
    append_xml_escaped(&mut xml, exe_path);
    xml.append(TASK_XML_BEFORE_ARGUMENTS);
    let ghost before_arguments = xml@;
    if delay_ms != DEFAULT_DELAY_MS {
        xml.append("<Arguments>restart --delay-ms ");
        write_decimal(delay_ms, &mut xml);
        xml.append(" --silent</Arguments>");
    } else {
        xml.append("<Arguments>restart --silent</Arguments>");
    }
    assert(xml@ =~= before_arguments + arguments_element(delay_ms));
    xml.append(TASK_XML_TAIL);
    xml
}

/// The view of an optional text.
pub open spec fn str_view(s: Option<&str>) -> Option<Seq<char>> {
    match s {
        Some(t) => Some(t@),
        None => None,
    }
}

/// The error when `schtasks /create` fails: its trimmed output, then its trimmed
/// error output.
pub fn schtasks_failure_message(stdout: &str, stderr: &str) -> (r: String)
    ensures
        r@ == "schtasks failed: "@ + trim(stdout@) + " "@ + trim(stderr@),
{
    let mut m = String::from_str("schtasks failed: ");
    m.append(trim_str(stdout));
    m.append(" ");
    m.append(trim_str(stderr));
    m
}

/// The error when `schtasks /delete` fails: its trimmed output, then its
/// trimmed error output, so that the message is never blank.
pub fn schtasks_delete_failure_message(stdout: &str, stderr: &str) -> (r: String)
    ensures
        r@ == "schtasks delete failed: "@ + trim(stdout@) + " "@ + trim(stderr@),
{
    let mut m = String::from_str("schtasks delete failed: ");
    m.append(trim_str(stdout));
    m.append(" ");
    m.append(trim_str(stderr));
    m
}

/// Task Scheduler's code for access denied.
pub const ACCESS_DENIED_CODE: &'static str = "0x80070005";

/// Task Scheduler's code for its service being unreachable.
pub const SERVICE_UNAVAILABLE_CODE: &'static str = "0x800706BA";

/// Failed `schtasks` output that names a real failure (access denied, or the
/// service unreachable) rather than a task that is not there.
pub open spec fn is_hard_failure(stdout: Seq<char>, stderr: Seq<char>) -> bool {
    find(stdout, ACCESS_DENIED_CODE@) is Some || find(stderr, ACCESS_DENIED_CODE@) is Some || find(
        stdout,
        SERVICE_UNAVAILABLE_CODE@,
    ) is Some || find(stderr, SERVICE_UNAVAILABLE_CODE@) is Some
}

/// What `schtasks /delete` did: success when it succeeded or when it failed
/// only because the task was not there (so that the rest of `uninstall` still
/// runs); the error, with its output, when access was denied or the service
/// could not be reached. The codes are looked for rather than the wording,
/// which depends on the language of Windows.
pub fn deletion_result(succeeded: bool, stdout: &str, stderr: &str) -> (r: Result<(), String>)
    ensures
        succeeded ==> r is Ok,
        !succeeded && !is_hard_failure(stdout@, stderr@) ==> r is Ok,
        !succeeded && is_hard_failure(stdout@, stderr@) ==> (r matches Err(m) && m@
            == "schtasks delete failed: "@ + trim(stdout@) + " "@ + trim(stderr@)),
{
    if succeeded {
        return Ok(());
    }
    let hard = find_str(stdout, ACCESS_DENIED_CODE).is_some() || find_str(stderr, ACCESS_DENIED_CODE).is_some()
        || find_str(stdout, SERVICE_UNAVAILABLE_CODE).is_some() || find_str(
        stderr,
        SERVICE_UNAVAILABLE_CODE,
    ).is_some();
    if hard {
        Err(schtasks_delete_failure_message(stdout, stderr))
    } else {
        Ok(())
    }
}


/// Which stream carries an error code does not matter: a failed deletion is a
/// real failure exactly when its output or its error output names access
/// denied (`0x80070005`) or the Task Scheduler service being unreachable
/// (`0x800706BA`), and swapping the two streams changes nothing.
pub proof fn lemma_hard_failure_codes(stdout: Seq<char>, stderr: Seq<char>)
    ensures
        is_hard_failure(stdout, stderr) == is_hard_failure(stderr, stdout),
        is_hard_failure(stdout, stderr) <==> (find(stdout, "0x80070005"@) is Some || find(
            stderr,
            "0x80070005"@,
        ) is Some || find(stdout, "0x800706BA"@) is Some || find(stderr, "0x800706BA"@) is Some),
{
}


/// Adding a candidate keeps the names already listed and lists the new one
/// unless it is empty.
proof fn lemma_with_candidate(list: Seq<Seq<char>>, c: Seq<char>)
    ensures
        forall|x: Seq<char>| list.contains(x) ==> with_candidate(list, c).contains(x),
        c.len() > 0 ==> with_candidate(list, c).contains(c),
{
    if c.len() > 0 && !list.contains(c) {
        assert(list.push(c)[list.len() as int] == c);
        assert forall|x: Seq<char>| list.contains(x) implies list.push(c).contains(x) by {
            let i = choose|i: int| 0 <= i < list.len() && list[i] == x;
            assert(list.push(c)[i] == x);
        }
    }
}

/// In `N- H`, with `N` made of digits, the first `"- "` follows `N`.
proof fn lemma_index_separator(n: Seq<char>, h: Seq<char>)
    requires
        all_ascii_digits(n),
    ensures
        find(n + seq!['-', ' '] + h, seq!['-', ' ']) == Some(n.len() as int),
{
    let m = n + seq!['-', ' '] + h;
    let p = n.len() as int;
    let sep = seq!['-', ' '];
    assert(occurs_at(m, sep, p)) by {
        assert(m.subrange(p, p + 2) =~= sep);
    }
    assert forall|j: int| 0 <= j < p implies !occurs_at(m, sep, j) by {
        assert(m[j] == n[j]);
        assert('0' <= n[j] <= '9');
        if occurs_at(m, sep, j) {
            assert(m.subrange(j, j + 2)[0] == m[j]);
        }
    }
    lemma_find_first(m, sep, 0, p);
}

/// `N- H` without its endpoint index is `H`, and it is already trimmed.
#[verifier::spinoff_prover]
proof fn lemma_indexed_name(n: Seq<char>, h: Seq<char>)
    requires
        all_ascii_digits(n),
        h.len() > 0,
        is_trimmed(h),
    ensures
        is_trimmed(n + seq!['-', ' '] + h),
        strip_endpoint_index(n + seq!['-', ' '] + h) == h,
        !all_ascii_digits(n + seq!['-', ' '] + h),
{
    let m = n + seq!['-', ' '] + h;
    let p = n.len() as int;
    assert(m[p] == '-');
    assert(is_trimmed(m)) by {
        if n.len() > 0 {
            assert(m[0] == n[0]);
            assert('0' <= n[0] <= '9');
        }
        assert(m.last() == h.last());
    }
    lemma_index_separator(n, h);
    assert(m.take(p) =~= n);
    assert(m.skip(p + 2) =~= h);
    lemma_trimmed_is_own_trim(h);
}

/// Where the parentheses of `O (M)` are, for `O` and `M` without `(`.
#[verifier::spinoff_prover]
proof fn lemma_parenthesized_shape(o: Seq<char>, m: Seq<char>)
    requires
        !o.contains('('),
        !m.contains('('),
        !all_ascii_digits(m),
    ensures
        ({
            let d = o + seq![' ', '('] + m + seq![')'];
            let k = o.len() as int;
            &&& strip_instance_suffix(d) == d
            &&& find(d, seq!['(']) == Some(k + 1)
            &&& rfind_char(d, ')') == Some(d.len() - 1)
            &&& d.subrange(k + 2, d.len() - 1) == m
            &&& d.take(k + 1) == o + seq![' ']
        }),
{
    let d = o + seq![' ', '('] + m + seq![')'];
    let k = o.len() as int;
    assert(d[k] == ' ' && d[k + 1] == '(' && d[d.len() - 1] == ')');
    lemma_rfind_char(d, '(');
    assert forall|i: int| k + 1 < i < d.len() implies d[i] != '(' by {
        if i < d.len() - 1 {
            assert(d[i] == m[i - k - 2]);
            assert(m.contains(m[i - k - 2]));
        }
    }
    assert(rfind_char(d, '(') == Some(k + 1));
    assert(d.subrange(k + 2, d.len() - 1) =~= m);
    lemma_find_from(d, seq!['('], 0);
    assert(occurs_at(d, seq!['('], k + 1)) by {
        assert(d.subrange(k + 1, k + 2) =~= seq!['(']);
    }
    if let Some(j) = find(d, seq!['(']) {
        assert(d.subrange(j, j + 1)[0] == d[j]);
        if j < k {
            assert(d[j] == o[j]);
            assert(o.contains(o[j]));
        }
    }
    lemma_rfind_char(d, ')');
    assert(d.take(k + 1) =~= o + seq![' ']);
}

/// The device filter matches every name under which Windows may log an
/// endpoint written as `O (N- H)` (a friendly name `O`, an endpoint index `N`
/// of digits, a hardware name `H`): the whole name, the bare hardware name
/// `H`, the hardware name with its index `N- H`, and the friendly name `O`
/// unless `O` is only an endpoint role such as `Speakers`. So
/// `Speakers (2- RODE NT-USB)` is matched as itself, `RODE NT-USB` and
/// `2- RODE NT-USB`, and `Sennheiser 560S (2- RODE NT-USB)` also as
/// `Sennheiser 560S`.
#[verifier::spinoff_prover]
pub proof fn lemma_filter_names_every_form(o: Seq<char>, n: Seq<char>, h: Seq<char>)
    requires
        o.len() > 0,
        is_trimmed(o),
        !o.contains('('),
        all_ascii_digits(n),
        h.len() > 0,
        is_trimmed(h),
        !h.contains('('),
    ensures
        ({
            let d = o + seq![' ', '('] + n + seq!['-', ' '] + h + seq![')'];
            &&& name_candidates(d).contains(d)
            &&& name_candidates(d).contains(h)
            &&& name_candidates(d).contains(n + seq!['-', ' '] + h)
            &&& !is_endpoint_role(o) ==> name_candidates(d).contains(o)
        }),
{
    let m = n + seq!['-', ' '] + h;
    let d = o + seq![' ', '('] + m + seq![')'];
    assert(d =~= o + seq![' ', '('] + n + seq!['-', ' '] + h + seq![')']);
    assert(!m.contains('(')) by {
        if m.contains('(') {
            let i = choose|i: int| 0 <= i < m.len() && m[i] == '(';
            if i < n.len() {
                assert(m[i] == n[i] && '0' <= n[i] <= '9');
            } else if i >= n.len() + 2 {
                assert(m[i] == h[i - n.len() - 2]);
                assert(h.contains(h[i - n.len() - 2]));
            }
        }
    }
    lemma_indexed_name(n, h);
    lemma_parenthesized_shape(o, m);
    lemma_trimmed_is_own_trim(m);
    lemma_trim_role_space(o);
    let first = seq![d];
    assert(first.contains(d)) by {
        assert(first[0] == d);
    }
    lemma_with_candidate(first, h);
    let l1 = with_candidate(first, h);
    lemma_with_candidate(l1, m);
    let l2 = with_candidate(l1, m);
    lemma_with_candidate(l2, o);
}


/// The device filter matches an endpoint written as `O (H)`, with a hardware
/// name `H` that has no endpoint index: the whole name, the hardware name `H`,
/// and the friendly name `O` unless `O` is only an endpoint role. So
/// `Speakers (Realtek(R) Audio)` is matched as itself and as
/// `Realtek(R) Audio`. (A name of digits alone in the parentheses reads as a
/// duplicate-endpoint suffix instead, and is left out here.)
#[verifier::spinoff_prover]
pub proof fn lemma_filter_names_plain_form(o: Seq<char>, h: Seq<char>)
    requires
        o.len() > 0,
        is_trimmed(o),
        !o.contains('('),
        h.len() > 0,
        is_trimmed(h),
        !h.contains('('),
        find(h, seq!['-', ' ']) is None,
        !all_ascii_digits(h),
    ensures
        ({
            let d = o + seq![' ', '('] + h + seq![')'];
            &&& name_candidates(d).contains(d)
            &&& name_candidates(d).contains(h)
            &&& !is_endpoint_role(o) ==> name_candidates(d).contains(o)
        }),
{
    let d = o + seq![' ', '('] + h + seq![')'];
    lemma_parenthesized_shape(o, h);
    lemma_trimmed_is_own_trim(h);
    assert(strip_endpoint_index(h) == h);
    lemma_trim_role_space(o);
    let first = seq![d];
    assert(first.contains(d)) by {
        assert(first[0] == d);
    }
    lemma_with_candidate(first, h);
    let l1 = with_candidate(first, h);
    lemma_with_candidate(l1, h);
    let l2 = with_candidate(l1, h);
    lemma_with_candidate(l2, o);
}

} // verus!
