use vstd::prelude::*;

use crate::decimal::lemma_decimal;
use crate::options::{default_option_values, options_of, with_delay, with_silent, OptionValues, MAX_DELAY_MS};
use crate::task::{
    arguments_element, joined_by_spaces, lemma_task_arguments_round_trip, task_restart_options,
    task_xml, task_xml_prefix, time_limit, user_element, wake_trigger, TASK_XML_AFTER_SUBSCRIPTION,
    TASK_XML_BEFORE_ARGUMENTS, TASK_XML_BEFORE_COMMAND, TASK_XML_BEFORE_PRINCIPAL,
    TASK_XML_BEFORE_TIME_LIMIT, TASK_XML_HEAD, TASK_XML_TAIL, WAKE_TRIGGER_HEAD,
};
use crate::text::{find, lemma_find_first, occurs_at};
use crate::xml::{lemma_xml_escaped_is_inert, xml_escaped};

verus! {

/// `s` holds no `<`.
pub open spec fn lt_free(s: Seq<char>) -> bool {
    forall|k: int| 0 <= k < s.len() ==> #[trigger] s[k] != '<'
}

/// `s` holds no `<Ar`, and its last two characters are not `<`, so that no
/// `<Ar` (the start of `<Arguments>`) appears in `s` even when more text
/// follows it.
pub open spec fn ar_free(s: Seq<char>) -> bool {
    &&& forall|k: int|
        0 <= k && k + 2 < s.len() ==> !(#[trigger] s[k] == '<' && s[k + 1] == 'A' && s[k + 2] == 'r')
    &&& s.len() >= 1 ==> s[s.len() - 1] != '<'
    &&& s.len() >= 2 ==> s[s.len() - 2] != '<'
}

/// The text of the first `<Arguments>` element of `x`: what follows the first
/// `<Arguments>` up to the next `</Arguments>`.
pub open spec fn first_arguments_text(x: Seq<char>) -> Option<Seq<char>> {
    match find(x, "<Arguments>"@) {
        Some(a) => {
            let rest = x.skip(a + "<Arguments>"@.len());
            match find(rest, "</Arguments>"@) {
                Some(b) => Some(rest.take(b)),
                None => None,
            }
        },
        None => None,
    }
}

proof fn lemma_lt_free_is_ar_free(s: Seq<char>)
    requires
        lt_free(s),
    ensures
        ar_free(s),
{
}

proof fn lemma_lt_free_concat(a: Seq<char>, b: Seq<char>)
    requires
        lt_free(a),
        lt_free(b),
    ensures
        lt_free(a + b),
{
    assert forall|k: int| 0 <= k < (a + b).len() implies #[trigger] (a + b)[k] != '<' by {
        if k >= a.len() {
            assert((a + b)[k] == b[k - a.len()]);
        }
    }
}

/// Texts free of `<Ar`, one after the other, are free of it.
proof fn lemma_ar_free_concat(a: Seq<char>, b: Seq<char>)
    requires
        ar_free(a),
        ar_free(b),
    ensures
        ar_free(a + b),
{
    let s = a + b;
    assert forall|k: int| 0 <= k && k + 2 < s.len() implies !(#[trigger] s[k] == '<' && s[k + 1] == 'A'
        && s[k + 2] == 'r') by {
        if k >= a.len() {
            assert(s[k] == b[k - a.len()] && s[k + 1] == b[k + 1 - a.len()] && s[k + 2] == b[k + 2
                - a.len()]);
        } else if k + 2 < a.len() {
            assert(s[k] == a[k] && s[k + 1] == a[k + 1] && s[k + 2] == a[k + 2]);
        } else {
            assert(s[k] == a[k]);
        }
    }
    if b.len() == 1 && a.len() >= 1 {
        assert(s[s.len() - 2] == a[a.len() - 1]);
    }
    if b.len() == 0 {
        assert(s =~= a);
    }
}

/// The fixed pieces of the task XML before the arguments are free of `<Ar`;
/// each piece is spelled out once more here so that its characters are known.
proof fn lemma_template_ar_free()
    ensures
        ar_free(TASK_XML_HEAD@),
        ar_free(TASK_XML_AFTER_SUBSCRIPTION@),
        ar_free(WAKE_TRIGGER_HEAD@),
        ar_free(TASK_XML_BEFORE_PRINCIPAL@),
        ar_free(TASK_XML_BEFORE_TIME_LIMIT@),
        ar_free(TASK_XML_BEFORE_COMMAND@),
        ar_free(TASK_XML_BEFORE_ARGUMENTS@),
        ar_free("\n      <UserId>"@),
        ar_free("</UserId>"@),
        lt_free("PT"@),
        lt_free("S"@),
{
    reveal_strlit(r#"<?xml version="1.0" encoding="UTF-16"?>
<Task version="1.4" xmlns="http://schemas.microsoft.com/windows/2004/02/mit/task">
  <RegistrationInfo>
    <Description>Earplugger - Auto-restart Voicemeeter audio engine on USB/KVM reconnect</Description>
    <Author>Earplugger</Author>
  </RegistrationInfo>
  <Triggers>
    <EventTrigger>
      <Enabled>true</Enabled>
      <Subscription>"#);
    reveal_strlit(r#"</Subscription>
    </EventTrigger>"#);
    reveal_strlit(r#"
    <EventTrigger>
      <Enabled>true</Enabled>
      <Subscription>"#);
    reveal_strlit(r#"
  </Triggers>
  <Principals>
    <Principal id="Author">"#);
    reveal_strlit(r#"
      <LogonType>InteractiveToken</LogonType>
      <RunLevel>LeastPrivilege</RunLevel>
    </Principal>
  </Principals>
  <Settings>
    <MultipleInstancesPolicy>IgnoreNew</MultipleInstancesPolicy>
    <DisallowStartIfOnBatteries>false</DisallowStartIfOnBatteries>
    <StopIfGoingOnBatteries>false</StopIfGoingOnBatteries>
    <AllowHardTerminate>true</AllowHardTerminate>
    <StartWhenAvailable>false</StartWhenAvailable>
    <RunOnlyIfNetworkAvailable>false</RunOnlyIfNetworkAvailable>
    <IdleSettings>
      <StopOnIdleEnd>false</StopOnIdleEnd>
      <RestartOnIdle>false</RestartOnIdle>
    </IdleSettings>
    <AllowStartOnDemand>true</AllowStartOnDemand>
    <Enabled>true</Enabled>
    <Hidden>true</Hidden>
    <RunOnlyIfIdle>false</RunOnlyIfIdle>
    <WakeToRun>false</WakeToRun>
    <ExecutionTimeLimit>"#);
    reveal_strlit(r#"</ExecutionTimeLimit>
    <Priority>4</Priority>
  </Settings>
  <Actions Context="Author">
    <Exec>
      <Command>"#);
    reveal_strlit(r#"</Command>
      "#);
    reveal_strlit("\n      <UserId>");
    reveal_strlit("</UserId>");
    reveal_strlit("PT");
    reveal_strlit("S");
}

/// Escaped text holds no `<`.
proof fn lemma_escaped_lt_free(s: Seq<char>)
    ensures
        lt_free(xml_escaped(s)),
{
    lemma_xml_escaped_is_inert(s);
    assert forall|k: int| 0 <= k < xml_escaped(s).len() implies #[trigger] xml_escaped(s)[k] != '<' by {
        let c = xml_escaped(s)[k];
    }
}

/// The task XML before its arguments element is free of `<Ar`.
proof fn lemma_prefix_ar_free(
    exe_path: Seq<char>,
    device: Option<Seq<char>>,
    delay_ms: u64,
    user: Option<Seq<char>>,
    wake: bool,
)
    ensures
        ar_free(task_xml_prefix(exe_path, device, delay_ms, user, wake)),
{
    lemma_template_ar_free();
    let sub = xml_escaped(crate::task::subscription(device));
    lemma_escaped_lt_free(crate::task::subscription(device));
    lemma_lt_free_is_ar_free(sub);
    let w = wake_trigger(wake);
    if wake {
        lemma_escaped_lt_free(crate::task::WAKE_SUBSCRIPTION@);
        lemma_lt_free_is_ar_free(xml_escaped(crate::task::WAKE_SUBSCRIPTION@));
        lemma_ar_free_concat(WAKE_TRIGGER_HEAD@, xml_escaped(crate::task::WAKE_SUBSCRIPTION@));
        lemma_ar_free_concat(
            WAKE_TRIGGER_HEAD@ + xml_escaped(crate::task::WAKE_SUBSCRIPTION@),
            TASK_XML_AFTER_SUBSCRIPTION@,
        );
    }
    let u = user_element(user);
    if let Some(name) = user {
        lemma_escaped_lt_free(name);
        lemma_lt_free_is_ar_free(xml_escaped(name));
        lemma_ar_free_concat("\n      <UserId>"@, xml_escaped(name));
        lemma_ar_free_concat("\n      <UserId>"@ + xml_escaped(name), "</UserId>"@);
    }
    let d = crate::decimal::decimal(crate::task::time_limit_seconds(delay_ms));
    lemma_decimal(crate::task::time_limit_seconds(delay_ms));
    assert(lt_free(d)) by {
        assert forall|k: int| 0 <= k < d.len() implies #[trigger] d[k] != '<' by {
            assert('0' <= d[k] <= '9');
        }
    }
    lemma_lt_free_concat("PT"@, d);
    lemma_lt_free_concat("PT"@ + d, "S"@);
    lemma_lt_free_is_ar_free(time_limit(delay_ms));
    let e = xml_escaped(exe_path);
    lemma_escaped_lt_free(exe_path);
    lemma_lt_free_is_ar_free(e);
    let p1 = TASK_XML_HEAD@ + sub;
    lemma_ar_free_concat(TASK_XML_HEAD@, sub);
    let p2 = p1 + TASK_XML_AFTER_SUBSCRIPTION@;
    lemma_ar_free_concat(p1, TASK_XML_AFTER_SUBSCRIPTION@);
    let p3 = p2 + w;
    lemma_ar_free_concat(p2, w);
    let p4 = p3 + TASK_XML_BEFORE_PRINCIPAL@;
    lemma_ar_free_concat(p3, TASK_XML_BEFORE_PRINCIPAL@);
    let p5 = p4 + u;
    lemma_ar_free_concat(p4, u);
    let p6 = p5 + TASK_XML_BEFORE_TIME_LIMIT@;
    lemma_ar_free_concat(p5, TASK_XML_BEFORE_TIME_LIMIT@);
    let p7 = p6 + time_limit(delay_ms);
    lemma_ar_free_concat(p6, time_limit(delay_ms));
    let p8 = p7 + TASK_XML_BEFORE_COMMAND@;
    lemma_ar_free_concat(p7, TASK_XML_BEFORE_COMMAND@);
    let p9 = p8 + e;
    lemma_ar_free_concat(p8, e);
    lemma_ar_free_concat(p9, TASK_XML_BEFORE_ARGUMENTS@);
}

/// Words made of characters other than `<`, joined by spaces, hold no `<`.
proof fn lemma_joined_lt_free(words: Seq<Seq<char>>)
    requires
        forall|i: int| 0 <= i < words.len() ==> lt_free(#[trigger] words[i]),
    ensures
        lt_free(joined_by_spaces(words)),
    decreases words.len(),
{
    if words.len() == 1 {
        assert(lt_free(words[0]));
    } else if words.len() > 1 {
        lemma_joined_lt_free(words.drop_last());
        assert(lt_free(words[words.len() - 1]));
        lemma_lt_free_concat(joined_by_spaces(words.drop_last()), seq![' ']);
        lemma_lt_free_concat(joined_by_spaces(words.drop_last()) + seq![' '], words.last());
    }
}

/// After text free of `<Ar`, an `<Arguments>` that follows is the first one.
proof fn lemma_open_tag_first(p: Seq<char>, r: Seq<char>)
    requires
        ar_free(p),
    ensures
        find(p + ("<Arguments>"@ + r), "<Arguments>"@) == Some(p.len() as int),
{
    reveal_strlit("<Arguments>");
    let open = "<Arguments>"@;
    let x = p + (open + r);
    let n = p.len() as int;
    assert(occurs_at(x, open, n)) by {
        assert(x.subrange(n, n + open.len()) =~= open);
    }
    assert forall|k: int| 0 <= k < n implies !occurs_at(x, open, k) by {
        if occurs_at(x, open, k) {
            assert(x.subrange(k, k + open.len())[0] == x[k]);
            assert(x.subrange(k, k + open.len())[1] == x[k + 1]);
            assert(x.subrange(k, k + open.len())[2] == x[k + 2]);
            assert(x[k] == p[k]);
            if k + 2 < n {
                assert(x[k + 1] == p[k + 1] && x[k + 2] == p[k + 2]);
            }
        }
    }
    lemma_find_first(x, open, 0, n);
}

/// After text without `<`, a `</Arguments>` that follows is the first one.
proof fn lemma_close_tag_first(j: Seq<char>, r: Seq<char>)
    requires
        lt_free(j),
    ensures
        find(j + ("</Arguments>"@ + r), "</Arguments>"@) == Some(j.len() as int),
{
    reveal_strlit("</Arguments>");
    let close = "</Arguments>"@;
    let x = j + (close + r);
    let m = j.len() as int;
    assert(occurs_at(x, close, m)) by {
        assert(x.subrange(m, m + close.len()) =~= close);
    }
    assert forall|k: int| 0 <= k < m implies !occurs_at(x, close, k) by {
        if occurs_at(x, close, k) {
            assert(x.subrange(k, k + close.len())[0] == x[k]);
            assert(x[k] == j[k]);
        }
    }
    lemma_find_first(x, close, 0, m);
}

/// The words that the task passes to the program hold no `<`.
proof fn lemma_task_words_lt_free(delay_ms: u64)
    ensures
        lt_free(joined_by_spaces(seq!["restart"@] + task_restart_options(delay_ms))),
{
    reveal_strlit("restart");
    reveal_strlit("--delay-ms");
    reveal_strlit("--silent");
    let words = seq!["restart"@] + task_restart_options(delay_ms);
    assert forall|i: int| 0 <= i < words.len() implies lt_free(#[trigger] words[i]) by {
        if i == 2 && delay_ms != crate::options::DEFAULT_DELAY_MS {
            let d = crate::decimal::decimal(delay_ms as nat);
            lemma_decimal(delay_ms as nat);
            assert forall|k: int| 0 <= k < d.len() implies #[trigger] d[k] != '<' by {
                assert('0' <= d[k] <= '9');
            }
        }
    }
    lemma_joined_lt_free(words);
}

/// The installed task restarts quietly with the delay it was installed with:
/// the first `<Arguments>` element of the task XML holds, joined by single
/// spaces, the words `restart` and `task_restart_options` (none of which holds
/// a space), and reading those options gives back the delay, with output
/// suppressed and nothing else changed.
#[verifier::spinoff_prover]
pub proof fn lemma_scheduled_run_keeps_the_delay(
    exe_path: Seq<char>,
    device: Option<Seq<char>>,
    delay_ms: u64,
    user: Option<Seq<char>>,
    wake: bool,
)
    requires
        delay_ms <= MAX_DELAY_MS,
    ensures
        first_arguments_text(task_xml(exe_path, device, delay_ms, user, wake)) == Some(
            joined_by_spaces(seq!["restart"@] + task_restart_options(delay_ms)),
        ),
        forall|i: int, j: int|
            0 <= i < (seq!["restart"@] + task_restart_options(delay_ms)).len() && 0 <= j < (seq![
                "restart"@,
            ] + task_restart_options(delay_ms))[i].len() ==> (seq!["restart"@] + task_restart_options(
                delay_ms,
            ))[i][j] != ' ',
        options_of(task_restart_options(delay_ms)) == Ok::<OptionValues, Seq<char>>(
            with_silent(with_delay(default_option_values(), delay_ms)),
        ),
{
    lemma_task_arguments_round_trip(delay_ms);
    let j = joined_by_spaces(seq!["restart"@] + task_restart_options(delay_ms));
    lemma_task_words_lt_free(delay_ms);
    let open = "<Arguments>"@;
    let close = "</Arguments>"@;
    let p = task_xml_prefix(exe_path, device, delay_ms, user, wake);
    let x = task_xml(exe_path, device, delay_ms, user, wake);
    lemma_prefix_ar_free(exe_path, device, delay_ms, user, wake);
    let r = j + (close + TASK_XML_TAIL@);
    assert(x =~= p + (open + r));
    lemma_open_tag_first(p, r);
    let rest = x.skip(p.len() + open.len() as int);
    assert(rest =~= r);
    lemma_close_tag_first(j, TASK_XML_TAIL@);
    assert(rest.take(j.len() as int) =~= j);
}

} // verus!
