use vstd::prelude::*;

use crate::text::push_char;

verus! {

pub open spec fn amp_entity() -> Seq<char> {
    seq!['&', 'a', 'm', 'p', ';']
}

pub open spec fn lt_entity() -> Seq<char> {
    seq!['&', 'l', 't', ';']
}

pub open spec fn gt_entity() -> Seq<char> {
    seq!['&', 'g', 't', ';']
}

pub open spec fn quot_entity() -> Seq<char> {
    seq!['&', 'q', 'u', 'o', 't', ';']
}

pub open spec fn apos_entity() -> Seq<char> {
    seq!['&', 'a', 'p', 'o', 's', ';']
}

/// The escaped form of one character: `&`, `<`, `>`, `"` and `'` become
/// entities, every other character stays.
pub open spec fn escape_one(c: char) -> Seq<char> {
    if c == '&' {
        amp_entity()
    } else if c == '<' {
        lt_entity()
    } else if c == '>' {
        gt_entity()
    } else if c == '"' {
        quot_entity()
    } else if c == '\'' {
        apos_entity()
    } else {
        seq![c]
    }
}

/// `s` escaped for XML text or attribute values, character by character.
pub open spec fn xml_escaped(s: Seq<char>) -> Seq<char>
    decreases s.len(),
{
    if s.len() == 0 {
        Seq::empty()
    } else {
        xml_escaped(s.drop_last()) + escape_one(s.last())
    }
}

/// Reading XML text back: the five entities stand for `&`, `<`, `>`, `"` and
/// `'`; every other character stands for itself.
pub open spec fn xml_unescaped(s: Seq<char>) -> Seq<char>
    decreases s.len(),
{
    if s.len() == 0 {
        s
    } else if amp_entity().is_prefix_of(s) {
        seq!['&'] + xml_unescaped(s.skip(5))
    } else if lt_entity().is_prefix_of(s) {
        seq!['<'] + xml_unescaped(s.skip(4))
    } else if gt_entity().is_prefix_of(s) {
        seq!['>'] + xml_unescaped(s.skip(4))
    } else if quot_entity().is_prefix_of(s) {
        seq!['"'] + xml_unescaped(s.skip(6))
    } else if apos_entity().is_prefix_of(s) {
        seq!['\''] + xml_unescaped(s.skip(6))
    } else {
        seq![s[0]] + xml_unescaped(s.skip(1))
    }
}

/// Escaping a concatenation escapes each part.
pub proof fn lemma_xml_escaped_concat(a: Seq<char>, b: Seq<char>)
    ensures
        xml_escaped(a + b) == xml_escaped(a) + xml_escaped(b),
    decreases b.len(),
{
    if b.len() == 0 {
        assert(a + b =~= a);
        assert(xml_escaped(a) + xml_escaped(b) =~= xml_escaped(a));
    } else {
        lemma_xml_escaped_concat(a, b.drop_last());
        assert((a + b).drop_last() =~= a + b.drop_last());
        assert(xml_escaped(a) + xml_escaped(b.drop_last()) + escape_one(b.last()) =~= xml_escaped(a)
            + (xml_escaped(b.drop_last()) + escape_one(b.last())));
    }
}

/// Escaping one character gives its escaped form.
proof fn lemma_xml_escaped_single(c: char)
    ensures
        xml_escaped(seq![c]) == escape_one(c),
{
    assert(seq![c].drop_last() =~= Seq::<char>::empty());
    assert(xml_escaped(Seq::<char>::empty()) == Seq::<char>::empty());
    assert(Seq::<char>::empty() + escape_one(c) =~= escape_one(c));
}

/// The escaped text holds no `<`, `>`, `"` or `'`: text put into the task XML
/// cannot open or close an element or end an attribute value.
pub proof fn lemma_xml_escaped_is_inert(s: Seq<char>)
    ensures
        forall|i: int|
            0 <= i < xml_escaped(s).len() ==> {
                let c = #[trigger] xml_escaped(s)[i];
                c != '<' && c != '>' && c != '"' && c != '\''
            },
    decreases s.len(),
{
    if s.len() > 0 {
        let t = s.drop_last();
        lemma_xml_escaped_is_inert(t);
        let e = escape_one(s.last());
        assert forall|i: int| 0 <= i < xml_escaped(s).len() implies {
            let c = #[trigger] xml_escaped(s)[i];
            c != '<' && c != '>' && c != '"' && c != '\''
        } by {
            if i >= xml_escaped(t).len() {
                assert(xml_escaped(s)[i] == e[i - xml_escaped(t).len()]);
            } else {
                assert(xml_escaped(s)[i] == xml_escaped(t)[i]);
            }
        }
    }
}

/// Reading the escaped form of `c` back gives `c` first.
proof fn lemma_unescape_one(c: char, rest: Seq<char>)
    ensures
        xml_unescaped(escape_one(c) + rest) == seq![c] + xml_unescaped(rest),
{
    let s = escape_one(c) + rest;
    if c == '&' {
        assert(s.take(5) =~= amp_entity());
        assert(s.skip(5) =~= rest);
    } else if c == '<' {
        assert(s[1] == 'l');
        assert(amp_entity()[1] == 'a');
        assert(s.take(4) =~= lt_entity());
        assert(s.skip(4) =~= rest);
    } else if c == '>' {
        assert(s[1] == 'g');
        assert(amp_entity()[1] == 'a' && lt_entity()[1] == 'l');
        assert(s.take(4) =~= gt_entity());
        assert(s.skip(4) =~= rest);
    } else if c == '"' {
        assert(s[1] == 'q');
        assert(amp_entity()[1] == 'a' && lt_entity()[1] == 'l' && gt_entity()[1] == 'g');
        assert(s.take(6) =~= quot_entity());
        assert(s.skip(6) =~= rest);
    } else if c == '\'' {
        assert(s[1] == 'a' && s[2] == 'p');
        assert(amp_entity()[2] == 'm');
        assert(lt_entity()[1] == 'l' && gt_entity()[1] == 'g' && quot_entity()[1] == 'q');
        assert(s.take(6) =~= apos_entity());
        assert(s.skip(6) =~= rest);
    } else {
        assert(s[0] == c);
        assert(amp_entity()[0] == '&' && lt_entity()[0] == '&' && gt_entity()[0] == '&');
        assert(quot_entity()[0] == '&' && apos_entity()[0] == '&');
        assert(s.skip(1) =~= rest);
    }
}

/// Escaping loses nothing: reading the escaped text back as XML gives the
/// text, so what is written into the task XML reaches Task Scheduler as it was.
pub proof fn lemma_xml_escape_round_trip(s: Seq<char>)
    ensures
        xml_unescaped(xml_escaped(s)) == s,
    decreases s.len(),
{
    if s.len() > 0 {
        let t = s.drop_first();
        lemma_xml_escape_round_trip(t);
        assert(s =~= seq![s[0]] + t);
        lemma_xml_escaped_concat(seq![s[0]], t);
        lemma_xml_escaped_single(s[0]);
        lemma_unescape_one(s[0], xml_escaped(t));
    }
}

/// Appends the XML-escaped form of `s` to `out`.
pub fn append_xml_escaped(out: &mut String, s: &str)
    ensures
        final(out)@ == old(out)@ + xml_escaped(s@),
{
    proof {
        reveal_strlit("&amp;");
        reveal_strlit("&lt;");
        reveal_strlit("&gt;");
        reveal_strlit("&quot;");
        reveal_strlit("&apos;");
        assert("&amp;"@ =~= amp_entity());
        assert("&lt;"@ =~= lt_entity());
        assert("&gt;"@ =~= gt_entity());
        assert("&quot;"@ =~= quot_entity());
        assert("&apos;"@ =~= apos_entity());
        assert(s@.take(0) =~= Seq::<char>::empty());
        assert(old(out)@ + Seq::<char>::empty() =~= old(out)@);
    }
    let n = s.unicode_len();
    let mut i: usize = 0;
    while i < n
        invariant
            n == s@.len(),
            i <= n,
            out@ == old(out)@ + xml_escaped(s@.take(i as int)),
            "&amp;"@ == amp_entity(),
            "&lt;"@ == lt_entity(),
            "&gt;"@ == gt_entity(),
            "&quot;"@ == quot_entity(),
            "&apos;"@ == apos_entity(),
        decreases n - i,
    {
        let c = s.get_char(i);
        let ghost before = out@;
        if c == '&' {
            out.append("&amp;");
        } else if c == '<' {
            out.append("&lt;");
        } else if c == '>' {
            out.append("&gt;");
        } else if c == '"' {
            out.append("&quot;");
        } else if c == '\'' {
            out.append("&apos;");
        } else {
            push_char(out, c);
        }
        proof {
            assert(out@ == before + escape_one(c));
            assert(s@.take(i + 1).drop_last() =~= s@.take(i as int));
            assert(s@.take(i + 1).last() == c);
            assert(old(out)@ + xml_escaped(s@.take(i as int)) + escape_one(c) =~= old(out)@ + (
            xml_escaped(s@.take(i as int)) + escape_one(c)));
        }
        i = i + 1;
    }
    assert(s@.take(n as int) =~= s@);
}

} // verus!
