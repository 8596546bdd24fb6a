use vstd::prelude::*;

verus! {

/// The Unicode `White_Space` property, the set of characters that `str::trim`
/// removes.
pub open spec fn is_white_space(c: char) -> bool {
    let v = c as u32;
    ||| 0x9 <= v <= 0xd
    ||| v == 0x20
    ||| v == 0x85
    ||| v == 0xa0
    ||| v == 0x1680
    ||| 0x2000 <= v <= 0x200a
    ||| v == 0x2028
    ||| v == 0x2029
    ||| v == 0x202f
    ||| v == 0x205f
    ||| v == 0x3000
}

/// `s` without its leading white space.
pub open spec fn trim_start(s: Seq<char>) -> Seq<char>
    decreases s.len(),
{
    if s.len() > 0 && is_white_space(s[0]) {
        trim_start(s.drop_first())
    } else {
        s
    }
}

/// `s` without its trailing white space.
pub open spec fn trim_end(s: Seq<char>) -> Seq<char>
    decreases s.len(),
{
    if s.len() > 0 && is_white_space(s.last()) {
        trim_end(s.drop_last())
    } else {
        s
    }
}

/// `s` without leading and trailing white space.
pub open spec fn trim(s: Seq<char>) -> Seq<char> {
    trim_end(trim_start(s))
}

/// `s` neither starts nor ends with white space.
pub open spec fn is_trimmed(s: Seq<char>) -> bool {
    s.len() > 0 ==> !is_white_space(s[0]) && !is_white_space(s.last())
}

/// `t` is a contiguous run of the characters of `s`.
pub open spec fn is_piece_of(t: Seq<char>, s: Seq<char>) -> bool {
    exists|i: int, j: int| 0 <= i <= j <= s.len() && t == s.subrange(i, j)
}

/// `trim_start` drops a prefix of white space and stops at a non-white character.
pub proof fn lemma_trim_start_range(s: Seq<char>) -> (i: int)
    ensures
        0 <= i <= s.len(),
        trim_start(s) == s.skip(i),
        i < s.len() ==> !is_white_space(s[i]),
    decreases s.len(),
{
    if s.len() > 0 && is_white_space(s[0]) {
        let k = lemma_trim_start_range(s.drop_first());
        assert(s.drop_first().skip(k) =~= s.skip(k + 1));
        k + 1
    } else {
        assert(s.skip(0) =~= s);
        0
    }
}

/// `trim_end` drops a suffix of white space and stops at a non-white character.
pub proof fn lemma_trim_end_range(s: Seq<char>) -> (j: int)
    ensures
        0 <= j <= s.len(),
        trim_end(s) == s.take(j),
        j > 0 ==> !is_white_space(s[j - 1]),
    decreases s.len(),
{
    if s.len() > 0 && is_white_space(s.last()) {
        let k = lemma_trim_end_range(s.drop_last());
        assert(s.drop_last().take(k) =~= s.take(k));
        k
    } else {
        assert(s.take(s.len() as int) =~= s);
        s.len() as int
    }
}

/// `trim` keeps a contiguous run of `s` that neither starts nor ends with white space.
pub proof fn lemma_trim_range(s: Seq<char>) -> (r: (int, int))
    ensures
        0 <= r.0 <= r.1 <= s.len(),
        trim(s) == s.subrange(r.0, r.1),
        is_trimmed(trim(s)),
{
    let i = lemma_trim_start_range(s);
    let t = s.skip(i);
    let j = lemma_trim_end_range(t);
    assert(t.take(j) =~= s.subrange(i, i + j));
    if j > 0 {
        assert(t[0] == s[i]);
        assert(t[j - 1] == s[i + j - 1]);
    }
    (i, i + j)
}

/// A piece of a piece of `s` is a piece of `s`.
pub proof fn lemma_piece_of_piece(u: Seq<char>, t: Seq<char>, s: Seq<char>)
    requires
        is_piece_of(u, t),
        is_piece_of(t, s),
    ensures
        is_piece_of(u, s),
{
    let (a, b) = choose|a: int, b: int| 0 <= a <= b <= t.len() && u == t.subrange(a, b);
    let (i, j) = choose|i: int, j: int| 0 <= i <= j <= s.len() && t == s.subrange(i, j);
    assert(u =~= s.subrange(i + a, i + b));
}

/// `s` is a piece of itself.
pub proof fn lemma_piece_of_self(s: Seq<char>)
    ensures
        is_piece_of(s, s),
{
    assert(s =~= s.subrange(0, s.len() as int));
}

/// A range of `s` is a piece of `s`.
pub proof fn lemma_subrange_piece(s: Seq<char>, i: int, j: int)
    requires
        0 <= i <= j <= s.len(),
    ensures
        is_piece_of(s.subrange(i, j), s),
{
}

/// A suffix of `s` is a piece of `s`.
pub proof fn lemma_skip_piece(s: Seq<char>, i: int)
    requires
        0 <= i <= s.len(),
    ensures
        is_piece_of(s.skip(i), s),
{
    assert(s.skip(i) =~= s.subrange(i, s.len() as int));
}

/// `trim(s)` is a piece of `s`.
pub proof fn lemma_trim_piece(s: Seq<char>)
    ensures
        is_piece_of(trim(s), s),
        is_trimmed(trim(s)),
{
    let (i, j) = lemma_trim_range(s);
}

/// Calls `String::push`, which appends `c` to `s`.
#[verifier::external_body]
pub(crate) fn push_char(s: &mut String, c: char)
    ensures
        final(s)@ == old(s)@.push(c),
{
    s.push(c);
}

/// The pieces of `s` between `\n` characters; the last piece is what follows the
/// last `\n` (empty when `s` ends with one).
pub open spec fn line_pieces(s: Seq<char>) -> Seq<Seq<char>>
    decreases s.len(),
{
    if s.len() == 0 {
        seq![Seq::empty()]
    } else {
        let p = line_pieces(s.drop_last());
        if s.last() == '\n' {
            p.push(Seq::empty())
        } else {
            p.update(p.len() - 1, p.last().push(s.last()))
        }
    }
}

/// A line that ended in `\r\n` loses its `\r`.
pub open spec fn strip_cr(l: Seq<char>) -> Seq<char> {
    if l.len() > 0 && l.last() == '\r' {
        l.drop_last()
    } else {
        l
    }
}

/// The lines of `s` (`str::lines`): split at `\n` or `\r\n`; a last empty
/// line after a final line ending is not a line.
pub open spec fn text_lines(s: Seq<char>) -> Seq<Seq<char>> {
    let p = line_pieces(s);
    let ended = p.take(p.len() - 1).map_values(|l: Seq<char>| strip_cr(l));
    if p.last().len() == 0 {
        ended
    } else {
        ended.push(p.last())
    }
}

/// The lines of `s`, as `str::lines` gives them.
pub fn lines_of(s: &str) -> (r: Vec<String>)
    ensures
        r@.map_values(|l: String| l@) == text_lines(s@),
{
    let n = s.unicode_len();
    let mut lines: Vec<String> = Vec::new();
    let mut start: usize = 0;
    let mut i: usize = 0;
    assert(s@.take(0) =~= Seq::<char>::empty());
    assert(s@.subrange(0, 0) =~= Seq::<char>::empty());
    while i < n
        invariant
            n == s@.len(),
            start <= i <= n,
            line_pieces(s@.take(i as int)).len() >= 1,
            lines@.map_values(|l: String| l@) == line_pieces(s@.take(i as int)).take(
                line_pieces(s@.take(i as int)).len() - 1,
            ).map_values(|l: Seq<char>| strip_cr(l)),
            line_pieces(s@.take(i as int)).last() == s@.subrange(start as int, i as int),
        decreases n - i,
    {
        let ghost t = s@.take(i as int);
        let ghost p = line_pieces(t);
        let c = s.get_char(i);
        assert(s@.take(i + 1).drop_last() =~= t);
        assert(s@.take(i + 1).last() == c);
        let ghost before = lines@;
        if c == '\n' {
            let end: usize = if i > start && s.get_char(i - 1) == '\r' {
                i - 1
            } else {
                i
            };
            let piece = s.substring_char(start, end);
            assert(piece@ == strip_cr(s@.subrange(start as int, i as int))) by {
                if i > start {
                    assert(s@.subrange(start as int, i as int).last() == s@[i - 1]);
                    assert(s@.subrange(start as int, i as int).drop_last() =~= s@.subrange(
                        start as int,
                        i - 1,
                    ));
                }
            }
            lines.push(String::from_str(piece));
            start = i + 1;
            proof {
                let q = line_pieces(s@.take(i + 1));
                assert(q == p.push(Seq::empty()));
                assert(q.take(q.len() - 1) =~= p);
                assert(p =~= p.take(p.len() - 1).push(p.last()));
                assert(lines@.map_values(|l: String| l@) =~= before.map_values(|l: String| l@).push(
                    piece@,
                ));
                assert(q.take(q.len() - 1).map_values(|l: Seq<char>| strip_cr(l)) =~= p.take(
                    p.len() - 1,
                ).map_values(|l: Seq<char>| strip_cr(l)).push(strip_cr(p.last())));
                assert(s@.subrange(start as int, i + 1) =~= Seq::<char>::empty());
            }
        } else {
            proof {
                let q = line_pieces(s@.take(i + 1));
                assert(q == p.update(p.len() - 1, p.last().push(c)));
                assert(q.take(q.len() - 1) =~= p.take(p.len() - 1));
                assert(s@.subrange(start as int, i + 1) =~= s@.subrange(start as int, i as int).push(
                    c,
                ));
            }
        }
        i = i + 1;
    }
    assert(s@.take(n as int) =~= s@);
    let ghost p = line_pieces(s@);
    if start < n {
        let piece = s.substring_char(start, n);
        let ghost before = lines@;
        lines.push(String::from_str(piece));
        assert(lines@.map_values(|l: String| l@) =~= before.map_values(|l: String| l@).push(piece@));
    } else {
        assert(p.last().len() == 0);
    }
    lines
}

/// Executable white-space test.
pub fn white_space(c: char) -> (r: bool)
    ensures
        r == is_white_space(c),
{
    let v = c as u32;
    (0x9 <= v && v <= 0xd) || v == 0x20 || v == 0x85 || v == 0xa0 || v == 0x1680 || (0x2000 <= v
        && v <= 0x200a) || v == 0x2028 || v == 0x2029 || v == 0x202f || v == 0x205f || v == 0x3000
}


/// Executable `trim`: the slice of `s` between its leading and trailing white space.
pub fn trim_str(s: &str) -> (r: &str)
    ensures
        r@ == trim(s@),
{
    let n = s.unicode_len();
    let mut i: usize = 0;
    assert(s@.subrange(0, n as int) =~= s@);
    while i < n && white_space(s.get_char(i))
        invariant
            n == s@.len(),
            i <= n,
            trim_start(s@) == trim_start(s@.subrange(i as int, n as int)),
        decreases n - i,
    {
        assert(s@.subrange(i as int, n as int).drop_first() =~= s@.subrange(i + 1, n as int));
        i = i + 1;
    }
    if i < n {
        assert(s@.subrange(i as int, n as int)[0] == s@[i as int]);
    } else {
        assert(s@.subrange(i as int, n as int).len() == 0);
    }
    assert(trim_start(s@) == s@.subrange(i as int, n as int));
    let mut j: usize = n;
    while j > i && white_space(s.get_char(j - 1))
        invariant
            n == s@.len(),
            i <= j <= n,
            trim(s@) == trim_end(s@.subrange(i as int, j as int)),
        decreases j - i,
    {
        assert(s@.subrange(i as int, j as int).drop_last() =~= s@.subrange(i as int, j - 1));
        j = j - 1;
    }
    if j > i {
        assert(s@.subrange(i as int, j as int).last() == s@[j - 1]);
    }
    s.substring_char(i, j)
}

/// `p` occurs in `s` starting at position `i`.
pub open spec fn occurs_at(s: Seq<char>, p: Seq<char>, i: int) -> bool {
    0 <= i && i + p.len() <= s.len() && s.subrange(i, i + p.len()) == p
}

/// The first position at or after `i` where `p` occurs in `s`.
pub open spec fn find_from(s: Seq<char>, p: Seq<char>, i: int) -> Option<int>
    decreases s.len() + 1 - i,
{
    if i < 0 || i + p.len() > s.len() {
        None
    } else if occurs_at(s, p, i) {
        Some(i)
    } else {
        find_from(s, p, i + 1)
    }
}

/// The first position where `p` occurs in `s` (`str::find`, counted in characters).
pub open spec fn find(s: Seq<char>, p: Seq<char>) -> Option<int> {
    find_from(s, p, 0)
}

/// The last position of `c` in `s` (`str::rfind` with a character pattern).
pub open spec fn rfind_char(s: Seq<char>, c: char) -> Option<int>
    decreases s.len(),
{
    if s.len() == 0 {
        None
    } else if s.last() == c {
        Some(s.len() - 1)
    } else {
        rfind_char(s.drop_last(), c)
    }
}

/// What `find_from` returns is an occurrence, the first one at or after `i`.
pub proof fn lemma_find_from(s: Seq<char>, p: Seq<char>, i: int)
    requires
        0 <= i,
    ensures
        find_from(s, p, i) matches Some(k) ==> i <= k && occurs_at(s, p, k) && forall|j: int|
            i <= j < k ==> !occurs_at(s, p, j),
        find_from(s, p, i) is None ==> forall|j: int| i <= j ==> !occurs_at(s, p, j),
    decreases s.len() + 1 - i,
{
    if i + p.len() <= s.len() && !occurs_at(s, p, i) {
        lemma_find_from(s, p, i + 1);
    }
}

/// `p` first occurs in `s` at `n`, when it occurs there and nowhere before.
pub proof fn lemma_find_first(s: Seq<char>, p: Seq<char>, i: int, n: int)
    requires
        0 <= i <= n,
        occurs_at(s, p, n),
        forall|j: int| i <= j < n ==> !occurs_at(s, p, j),
    ensures
        find_from(s, p, i) == Some(n),
    decreases n - i,
{
    if i < n {
        lemma_find_first(s, p, i + 1, n);
    }
}

/// What `rfind_char` returns is a position of `c`, the last one.
pub proof fn lemma_rfind_char(s: Seq<char>, c: char)
    ensures
        rfind_char(s, c) matches Some(k) ==> 0 <= k < s.len() && s[k] == c && forall|j: int|
            k < j < s.len() ==> s[j] != c,
        rfind_char(s, c) is None ==> forall|j: int| 0 <= j < s.len() ==> s[j] != c,
    decreases s.len(),
{
    if s.len() > 0 && s.last() != c {
        lemma_rfind_char(s.drop_last(), c);
        assert forall|j: int| 0 <= j < s.len() - 1 implies s[j] == s.drop_last()[j] by {}
    }
}

/// Does `p` occur in `s` at position `i`?
fn matches_at(s: &str, n: usize, p: &str, m: usize, i: usize) -> (r: bool)
    requires
        n == s@.len(),
        m == p@.len(),
        i + m <= n,
    ensures
        r == occurs_at(s@, p@, i as int),
{
    let mut k: usize = 0;
    while k < m
        invariant
            n == s@.len(),
            m == p@.len(),
            i + m <= n,
            k <= m,
            forall|t: int| 0 <= t < k ==> s@[i + t] == p@[t],
        decreases m - k,
    {
        if s.get_char(i + k) != p.get_char(k) {
            assert(s@.subrange(i as int, i + m)[k as int] == s@[i + k]);
            return false;
        }
        k = k + 1;
    }
    assert(s@.subrange(i as int, i + m) =~= p@);
    true
}

/// Executable `find`: the first character position where `p` occurs in `s`.
pub fn find_str(s: &str, p: &str) -> (r: Option<usize>)
    ensures
        r is None <==> find(s@, p@) is None,
        r matches Some(k) ==> find(s@, p@) == Some(k as int),
        r matches Some(k) ==> k + p@.len() <= s@.len(),
{
    proof {
        lemma_find_from(s@, p@, 0);
    }
    let n = s.unicode_len();
    let m = p.unicode_len();
    if m > n {
        return None;
    }
    let last = n - m;
    let mut i: usize = 0;
    loop
        invariant
            n == s@.len(),
            m == p@.len(),
            last == n - m,
            i <= last,
            find(s@, p@) == find_from(s@, p@, i as int),
        decreases last - i,
    {
        if matches_at(s, n, p, m, i) {
            return Some(i);
        }
        if i == last {
            assert(find_from(s@, p@, i + 1) is None);
            return None;
        }
        i = i + 1;
    }
}

/// Executable `rfind` of a character: its last position in `s`.
pub fn rfind_char_in(s: &str, c: char) -> (r: Option<usize>)
    ensures
        r is None <==> rfind_char(s@, c) is None,
        r matches Some(k) ==> rfind_char(s@, c) == Some(k as int),
        r matches Some(k) ==> k < s@.len(),
{
    proof {
        lemma_rfind_char(s@, c);
    }
    let n = s.unicode_len();
    let mut j: usize = n;
    assert(s@.subrange(0, n as int) =~= s@);
    while j > 0
        invariant
            n == s@.len(),
            j <= n,
            rfind_char(s@, c) == rfind_char(s@.subrange(0, j as int), c),
        decreases j,
    {
        assert(s@.subrange(0, j as int).last() == s@[j - 1]);
        if s.get_char(j - 1) == c {
            return Some(j - 1);
        }
        assert(s@.subrange(0, j as int).drop_last() =~= s@.subrange(0, j - 1));
        j = j - 1;
    }
    None
}

/// Executable `starts_with`.
pub fn starts_with_str(s: &str, p: &str) -> (r: bool)
    ensures
        r == p@.is_prefix_of(s@),
{
    let n = s.unicode_len();
    let m = p.unicode_len();
    if m > n {
        return false;
    }
    let r = matches_at(s, n, p, m, 0);
    assert(s@.subrange(0, m as int) == s@.take(m as int));
    r
}

/// Executable string equality.
pub fn equal_str(s: &str, p: &str) -> (r: bool)
    ensures
        r == (s@ == p@),
{
    let n = s.unicode_len();
    let m = p.unicode_len();
    if m != n {
        return false;
    }
    let r = matches_at(s, n, p, m, 0);
    assert(s@.subrange(0, n as int) =~= s@);
    r
}

} // verus!
