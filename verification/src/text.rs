//! Text primitives over sequences of characters: trimming, prefixes,
//! searching, splitting into lines and into words, and building strings.

use vstd::prelude::*;

verus! {

// ------------------------------------------------------------------
// Character classes
// ------------------------------------------------------------------

/// The Unicode `White_Space` property.
pub open spec fn is_white_space(c: char) -> bool {
    let u = c as u32;
    ||| 0x09 <= u <= 0x0D
    ||| u == 0x20
    ||| u == 0x85
    ||| u == 0xA0
    ||| u == 0x1680
    ||| 0x2000 <= u <= 0x200A
    ||| u == 0x2028
    ||| u == 0x2029
    ||| u == 0x202F
    ||| u == 0x205F
    ||| u == 0x3000
}

/// Calls `char::is_whitespace`, which std documents as the Unicode
/// `White_Space` property; the contract lists the code points that have it.
#[verifier::external_body]
fn char_is_whitespace(c: char) -> (b: bool)
    ensures
        b == is_white_space(c),
{
    c.is_whitespace()
}

/// The characters that a trim removes: whitespace when `target` is `None`,
/// otherwise the one character `target` holds.
pub open spec fn trimmed_by(c: char, target: Option<char>) -> bool {
    match target {
        None => is_white_space(c),
        Some(t) => c == t,
    }
}

fn is_trimmed_by(c: char, target: Option<char>) -> (b: bool)
    ensures
        b == trimmed_by(c, target),
{
    match target {
        None => char_is_whitespace(c),
        Some(t) => c == t,
    }
}

// ------------------------------------------------------------------
// Trimming
// ------------------------------------------------------------------

/// `s` without its leading characters of the class `target`.
pub open spec fn trim_start_by(s: Seq<char>, target: Option<char>) -> Seq<char>
    decreases s.len(),
{
    if s.len() > 0 && trimmed_by(s[0], target) {
        trim_start_by(s.drop_first(), target)
    } else {
        s
    }
}

/// `s` without its trailing characters of the class `target`.
pub open spec fn trim_end_by(s: Seq<char>, target: Option<char>) -> Seq<char>
    decreases s.len(),
{
    if s.len() > 0 && trimmed_by(s.last(), target) {
        trim_end_by(s.drop_last(), target)
    } else {
        s
    }
}

/// `s` without its leading and trailing characters of the class `target`.
pub open spec fn trim_by(s: Seq<char>, target: Option<char>) -> Seq<char> {
    trim_end_by(trim_start_by(s, target), target)
}

/// `str::trim`: leading and trailing whitespace removed.
pub open spec fn trim(s: Seq<char>) -> Seq<char> {
    trim_by(s, None)
}

/// `str::trim_end`: trailing whitespace removed.
pub open spec fn trim_end(s: Seq<char>) -> Seq<char> {
    trim_end_by(s, None)
}

/// `str::trim_matches('"')`: leading and trailing double quotes removed.
pub open spec fn trim_quotes(s: Seq<char>) -> Seq<char> {
    trim_by(s, Some('"'))
}

proof fn lemma_trim_start_at(s: Seq<char>, a: int, target: Option<char>)
    requires
        0 <= a <= s.len(),
        forall|k: int| 0 <= k < a ==> trimmed_by(#[trigger] s[k], target),
        a == s.len() || !trimmed_by(s[a], target),
    ensures
        trim_start_by(s, target) == s.skip(a),
    decreases a,
{
    if a == 0 {
        assert(s.skip(0) =~= s);
    } else {
        let t = s.drop_first();
        assert forall|k: int| 0 <= k < a - 1 implies trimmed_by(#[trigger] t[k], target) by {
            assert(t[k] == s[k + 1]);
        }
        if a < s.len() {
            assert(t[a - 1] == s[a]);
        }
        lemma_trim_start_at(t, a - 1, target);
        assert(t.skip(a - 1) =~= s.skip(a));
    }
}

proof fn lemma_trim_end_at(s: Seq<char>, b: int, target: Option<char>)
    requires
        0 <= b <= s.len(),
        forall|k: int| b <= k < s.len() ==> trimmed_by(#[trigger] s[k], target),
        b == 0 || !trimmed_by(s[b - 1], target),
    ensures
        trim_end_by(s, target) == s.take(b),
    decreases s.len() - b,
{
    if b == s.len() {
        assert(s.take(b) =~= s);
    } else {
        let t = s.drop_last();
        assert forall|k: int| b <= k < t.len() implies trimmed_by(#[trigger] t[k], target) by {
            assert(t[k] == s[k]);
        }
        if b > 0 {
            assert(t[b - 1] == s[b - 1]);
        }
        assert(trimmed_by(s[s.len() - 1], target));
        lemma_trim_end_at(t, b, target);
        assert(t.take(b) =~= s.take(b));
    }
}

/// The bounds of `s` once the characters of class `target` are trimmed
/// from both ends.
fn trim_bounds(s: &[char], target: Option<char>) -> (r: (usize, usize))
    ensures
        r.0 <= r.1 <= s@.len(),
        s@.subrange(r.0 as int, r.1 as int) == trim_by(s@, target),
{
    let n = s.len();
    let mut a: usize = 0;
    while a < n && is_trimmed_by(s[a], target)
        invariant
            n == s@.len(),
            a <= n,
            forall|k: int| 0 <= k < a ==> trimmed_by(#[trigger] s@[k], target),
        decreases n - a,
    {
        a = a + 1;
    }
    let mut b: usize = n;
    while b > a && is_trimmed_by(s[b - 1], target)
        invariant
            n == s@.len(),
            a <= b <= n,
            forall|k: int| b <= k < n ==> trimmed_by(#[trigger] s@[k], target),
        decreases b - a,
    {
        b = b - 1;
    }
    proof {
        lemma_trim_start_at(s@, a as int, target);
        let t = s@.skip(a as int);
        assert forall|k: int| b - a <= k < t.len() implies trimmed_by(#[trigger] t[k], target) by {
            assert(t[k] == s@[k + a]);
        }
        if b > a {
            assert(t[b - a - 1] == s@[b - 1]);
        }
        lemma_trim_end_at(t, b - a, target);
        assert(t.take(b - a) =~= s@.subrange(a as int, b as int));
    }
    (a, b)
}

/// `s` with the characters of class `target` trimmed from both ends.
pub fn trim_slice(s: &[char], target: Option<char>) -> (r: &[char])
    ensures
        r@ == trim_by(s@, target),
{
    let (a, b) = trim_bounds(s, target);
    &s[a..b]
}

/// `s` with trailing whitespace removed.
pub fn trim_end_slice(s: &[char]) -> (r: &[char])
    ensures
        r@ == trim_end(s@),
{
    let n = s.len();
    let mut b: usize = n;
    while b > 0 && char_is_whitespace(s[b - 1])
        invariant
            n == s@.len(),
            b <= n,
            forall|k: int| b <= k < n ==> trimmed_by(#[trigger] s@[k], None),
        decreases b,
    {
        b = b - 1;
    }
    proof {
        lemma_trim_end_at(s@, b as int, None);
    }
    &s[0..b]
}

// ------------------------------------------------------------------
// Prefixes, equality and search
// ------------------------------------------------------------------

/// Whether `s` and `t` hold the same characters.
pub fn chars_eq(s: &[char], t: &[char]) -> (b: bool)
    ensures
        b == (s@ == t@),
{
    if s.len() != t.len() {
        return false;
    }
    let n = s.len();
    let mut i: usize = 0;
    while i < n
        invariant
            n == s@.len(),
            n == t@.len(),
            i <= n,
            forall|k: int| 0 <= k < i ==> s@[k] == t@[k],
        decreases n - i,
    {
        if s[i] != t[i] {
            return false;
        }
        i = i + 1;
    }
    assert(s@ =~= t@);
    true
}

/// Whether the strings `a` and `b` hold the same characters.
pub fn str_eq(a: &str, b: &str) -> (r: bool)
    ensures
        r == (a@ == b@),
{
    let x = chars_of(a);
    let y = chars_of(b);
    chars_eq(x.as_slice(), y.as_slice())
}

/// Whether `p` occurs in `s` starting at index `i`.
pub open spec fn occurs_at(s: Seq<char>, p: Seq<char>, i: int) -> bool {
    0 <= i && i + p.len() <= s.len() && s.subrange(i, i + p.len()) == p
}

fn matches_at(s: &[char], p: &[char], i: usize) -> (b: bool)
    ensures
        b == occurs_at(s@, p@, i as int),
{
    if i > s.len() || p.len() > s.len() - i {
        return false;
    }
    let n = p.len();
    let mut k: usize = 0;
    while k < n
        invariant
            n == p@.len(),
            i + n <= s.len(),
            k <= n,
            forall|j: int| 0 <= j < k ==> s@[i + j] == p@[j],
        decreases n - k,
    {
        if s[i + k] != p[k] {
            assert(s@.subrange(i as int, i + n)[k as int] != p@[k as int]);
            return false;
        }
        k = k + 1;
    }
    assert(s@.subrange(i as int, i + n) =~= p@);
    true
}

/// Whether `s` starts with `p`.
pub fn has_prefix(s: &[char], p: &[char]) -> (b: bool)
    ensures
        b == p@.is_prefix_of(s@),
{
    let b = matches_at(s, p, 0);
    proof {
        if b {
            assert(s@.subrange(0, p@.len() as int) =~= s@.take(p@.len() as int));
        } else if p@.len() <= s@.len() {
            assert(s@.subrange(0, p@.len() as int) =~= s@.take(p@.len() as int));
        }
    }
    b
}

/// `s` without the prefix `p`, when `s` starts with `p`.
pub open spec fn strip_prefix(s: Seq<char>, p: Seq<char>) -> Option<Seq<char>> {
    if p.is_prefix_of(s) {
        Some(s.skip(p.len() as int))
    } else {
        None
    }
}

/// `str::strip_prefix`.
pub fn strip_prefix_slice<'a>(s: &'a [char], p: &[char]) -> (r: Option<&'a [char]>)
    ensures
        r matches Some(rest) ==> strip_prefix(s@, p@) == Some(rest@),
        r is None ==> strip_prefix(s@, p@) is None,
{
    if has_prefix(s, p) {
        let rest = &s[p.len()..s.len()];
        assert(rest@ =~= s@.skip(p@.len() as int));
        Some(rest)
    } else {
        None
    }
}

/// The first index at or after `from` where `p` occurs in `s`.
pub open spec fn find_from(s: Seq<char>, p: Seq<char>, from: int) -> Option<int>
    decreases s.len() + 1 - from,
{
    if from < 0 || from + p.len() > s.len() {
        None
    } else if occurs_at(s, p, from) {
        Some(from)
    } else {
        find_from(s, p, from + 1)
    }
}

/// The first index where `p` occurs in `s`.
pub fn find(s: &[char], p: &[char]) -> (r: Option<usize>)
    ensures
        r matches Some(i) ==> find_from(s@, p@, 0) == Some(i as int),
        r is None ==> find_from(s@, p@, 0) is None,
{
    let n = s.len();
    if p.len() > n {
        return None;
    }
    let last = n - p.len();
    let mut i: usize = 0;
    loop
        invariant
            n == s@.len(),
            last + p@.len() == n,
            i <= last,
            find_from(s@, p@, 0) == find_from(s@, p@, i as int),
        decreases last - i,
    {
        if matches_at(s, p, i) {
            return Some(i);
        }
        if i == last {
            assert(find_from(s@, p@, i + 1) is None);
            return None;
        }
        i = i + 1;
    }
}

proof fn lemma_find_from_occurs(s: Seq<char>, p: Seq<char>, from: int)
    ensures
        find_from(s, p, from) matches Some(i) ==> from <= i && occurs_at(s, p, i),
    decreases s.len() + 1 - from,
{
    if !(from < 0 || from + p.len() > s.len()) && !occurs_at(s, p, from) {
        lemma_find_from_occurs(s, p, from + 1);
    }
}

/// `str::split_once`: the parts of `s` before and after the first
/// occurrence of `p`.
pub open spec fn split_once(s: Seq<char>, p: Seq<char>) -> Option<(Seq<char>, Seq<char>)> {
    match find_from(s, p, 0) {
        Some(i) => Some((s.take(i), s.skip(i + p.len()))),
        None => None,
    }
}

/// `str::split_once`: the parts of `s` before and after the first occurrence of `p`.
pub fn split_once_slice<'a>(s: &'a [char], p: &[char]) -> (r: Option<(&'a [char], &'a [char])>)
    ensures
        r matches Some(parts) ==> split_once(s@, p@) == Some((parts.0@, parts.1@)),
        r is None ==> split_once(s@, p@) is None,
{
    let n = s.len();
    match find(s, p) {
        Some(i) => {
            proof {
                lemma_find_from_occurs(s@, p@, 0);
                assert(occurs_at(s@, p@, i as int));
                assert(i + p@.len() <= s@.len());
            }
            let before = &s[0..i];
            let after = &s[i + p.len()..n];
            assert(before@ =~= s@.take(i as int));
            assert(after@ =~= s@.skip(i + p@.len()));
            Some((before, after))
        },
        None => None,
    }
}

/// Whether `s` holds the character `c`.
pub fn contains_char(s: &[char], c: char) -> (b: bool)
    ensures
        b == s@.contains(c),
{
    let n = s.len();
    let mut i: usize = 0;
    while i < n
        invariant
            n == s@.len(),
            i <= n,
            forall|k: int| 0 <= k < i ==> s@[k] != c,
        decreases n - i,
    {
        if s[i] == c {
            return true;
        }
        i = i + 1;
    }
    false
}

// ------------------------------------------------------------------
// Building strings
// ------------------------------------------------------------------

/// The characters of `s`, in order.
pub fn chars_of(s: &str) -> (out: Vec<char>)
    ensures
        out@ == s@,
{
    let mut out: Vec<char> = Vec::new();
    for c in it: s.chars()
        invariant
            out@ == it.seq().take(it.index() as int),
            it.seq() == s@,
    {
        out.push(c);
    }
    out
}

/// Calls `String::push`, which appends one character.
#[verifier::external_body]
pub(crate) fn push_char(s: &mut String, c: char)
    ensures
        final(s)@ == old(s)@.push(c),
{
    s.push(c);
}

/// Appends the characters of `cs` to `s`.
pub fn push_chars(s: &mut String, cs: &[char])
    ensures
        final(s)@ == old(s)@ + cs@,
{
    let n = cs.len();
    let mut i: usize = 0;
    while i < n
        invariant
            n == cs@.len(),
            i <= n,
            s@ == old(s)@ + cs@.take(i as int),
        decreases n - i,
    {
        push_char(s, cs[i]);
        i = i + 1;
        assert(cs@.take(i as int) =~= cs@.take(i - 1).push(cs@[i - 1]));
    }
    assert(cs@.take(n as int) =~= cs@);
}

/// A string holding the characters of `cs`.
pub fn string_of(cs: &[char]) -> (s: String)
    ensures
        s@ == cs@,
{
    let mut s = String::new();
    push_chars(&mut s, cs);
    s
}

// ------------------------------------------------------------------
// Lines
// ------------------------------------------------------------------

/// The pieces of `s` between newline characters: one more piece than `s`
/// has newlines.
pub open spec fn newline_pieces(s: Seq<char>) -> Seq<Seq<char>>
    decreases s.len(),
{
    if s.len() == 0 {
        seq![Seq::empty()]
    } else {
        let p = newline_pieces(s.drop_last());
        if s.last() == '\n' {
            p.push(Seq::empty())
        } else {
            p.update(p.len() - 1, p.last().push(s.last()))
        }
    }
}

/// A line that a newline ended, without the carriage return before it.
pub open spec fn strip_cr(l: Seq<char>) -> Seq<char> {
    if l.len() > 0 && l.last() == '\r' {
        l.drop_last()
    } else {
        l
    }
}

/// Each line of `ps` without the carriage return that ended it.
pub open spec fn strip_crs(ps: Seq<Seq<char>>) -> Seq<Seq<char>> {
    ps.map_values(|l: Seq<char>| strip_cr(l))
}

/// `str::lines`: the lines of `s`, split at `\n` or `\r\n`, without the
/// line endings; a final line ending ends the last line and does not
/// start an empty one.
pub open spec fn lines_of(s: Seq<char>) -> Seq<Seq<char>> {
    let p = newline_pieces(s);
    let n = p.len() - 1;
    let ended = strip_crs(p.take(n));
    if p[n].len() == 0 {
        ended
    } else {
        ended.push(p[n])
    }
}

/// The lines of `s`, as `str::lines` splits them.
pub fn split_lines(s: &[char]) -> (lines: Vec<Vec<char>>)
    ensures
        lines.deep_view() == lines_of(s@),
{
    let n = s.len();
    let mut done: Vec<Vec<char>> = Vec::new();
    let mut cur: Vec<char> = Vec::new();
    let mut i: usize = 0;
    proof {
        assert(s@.take(0) =~= Seq::<char>::empty());
    }
    while i < n
        invariant
            n == s@.len(),
            i <= n,
            ({
                let p = newline_pieces(s@.take(i as int));
                &&& p.len() >= 1
                &&& done.deep_view() =~= strip_crs(p.take(p.len() - 1))
                &&& cur@ == p.last()
            }),
        decreases n - i,
    {
        let c = s[i];
        let ghost prev = newline_pieces(s@.take(i as int));
        proof {
            assert(s@.take(i + 1).drop_last() =~= s@.take(i as int));
            assert(s@.take(i + 1).last() == c);
        }
        if c == '\n' {
            let mut line = cur;
            let len = line.len();
            if len > 0 && line[len - 1] == '\r' {
                line.pop();
            }
            proof {
                assert(line@ == strip_cr(prev.last()));
            }
            let ghost old_done = done.deep_view();
            proof {
                assert(line.deep_view() =~= line@);
            }
            done.push(line);
            cur = Vec::new();
            proof {
                let p = newline_pieces(s@.take(i + 1));
                assert(done.deep_view() =~= old_done.push(line@));
                assert(p == prev.push(Seq::empty()));
                assert(p.take(p.len() - 1) =~= prev);
                assert(strip_crs(prev) =~= strip_crs(prev.take(prev.len() - 1)).push(
                    strip_cr(prev.last()),
                ));
            }
        } else {
            cur.push(c);
            proof {
                let p = newline_pieces(s@.take(i + 1));
                assert(p == prev.update(prev.len() - 1, prev.last().push(c)));
                assert(p.take(p.len() - 1) =~= prev.take(prev.len() - 1));
            }
        }
        i = i + 1;
    }
    proof {
        assert(s@.take(n as int) =~= s@);
    }
    if cur.len() > 0 {
        let ghost old_done = done.deep_view();
        let ghost last = cur@;
        proof {
            assert(cur.deep_view() =~= cur@);
        }
        done.push(cur);
        proof {
            assert(done.deep_view() =~= old_done.push(last));
        }
    }
    done
}

proof fn lemma_newline_pieces_len(s: Seq<char>)
    ensures
        newline_pieces(s).len() >= 1,
    decreases s.len(),
{
    if s.len() > 0 {
        lemma_newline_pieces_len(s.drop_last());
    }
}

/// After a text that is empty or ends in a newline, the pieces of what
/// follows start a piece of their own.
proof fn lemma_newline_pieces_joined(a: Seq<char>, b: Seq<char>)
    requires
        a.len() == 0 || a.last() == '\n',
    ensures
        newline_pieces(a + b) =~= newline_pieces(a).drop_last() + newline_pieces(b),
    decreases b.len(),
{
    lemma_newline_pieces_len(a);
    lemma_newline_pieces_len(b);
    let pa = newline_pieces(a);
    if a.len() > 0 {
        lemma_newline_pieces_len(a.drop_last());
    }
    assert(pa.last() =~= Seq::<char>::empty());
    if b.len() == 0 {
        assert(a + b =~= a);
        assert(pa =~= pa.drop_last() + seq![Seq::<char>::empty()]);
    } else {
        let b0 = b.drop_last();
        lemma_newline_pieces_joined(a, b0);
        lemma_newline_pieces_len(b0);
        assert((a + b).drop_last() =~= a + b0);
        assert((a + b).last() == b.last());
        let p = pa.drop_last();
        let q = newline_pieces(b0);
        if b.last() == '\n' {
            assert((p + q).push(Seq::empty()) =~= p + q.push(Seq::empty()));
        } else {
            let pq = p + q;
            assert(pq.last() == q.last());
            assert(pq.update(pq.len() - 1, pq.last().push(b.last())) =~= p + q.update(
                q.len() - 1,
                q.last().push(b.last()),
            ));
        }
    }
}

proof fn lemma_newline_pieces_one(s: Seq<char>)
    requires
        forall|i: int| 0 <= i < s.len() ==> s[i] != '\n',
    ensures
        newline_pieces(s) == seq![s],
    decreases s.len(),
{
    if s.len() > 0 {
        let s0 = s.drop_last();
        assert forall|i: int| 0 <= i < s0.len() implies s0[i] != '\n' by {
            assert(s0[i] == s[i]);
        }
        lemma_newline_pieces_one(s0);
        assert(s.last() == s[s.len() - 1]);
        assert(s0.push(s.last()) =~= s);
        assert(seq![s0].update(0, s0.push(s.last())) =~= seq![s]);
    } else {
        assert(s =~= Seq::<char>::empty());
    }
}

/// A text without a newline is one line.
pub proof fn lemma_lines_of_one_line(s: Seq<char>)
    requires
        s.len() > 0,
        forall|i: int| 0 <= i < s.len() ==> s[i] != '\n',
    ensures
        lines_of(s) == seq![s],
{
    lemma_newline_pieces_one(s);
    assert(strip_crs(seq![s].take(0)) =~= Seq::<Seq<char>>::empty());
    assert(Seq::<Seq<char>>::empty().push(s) =~= seq![s]);
}

/// The lines of a text that is empty or ends in a newline, followed by
/// any text, are the lines of the one followed by the lines of the other.
pub proof fn lemma_lines_of_joined(a: Seq<char>, b: Seq<char>)
    requires
        a.len() == 0 || a.last() == '\n',
    ensures
        lines_of(a + b) =~= lines_of(a) + lines_of(b),
{
    lemma_newline_pieces_joined(a, b);
    lemma_newline_pieces_len(a);
    lemma_newline_pieces_len(b);
    if a.len() > 0 {
        lemma_newline_pieces_len(a.drop_last());
    }
    let pa = newline_pieces(a);
    let p = pa.drop_last();
    let q = newline_pieces(b);
    let pq = newline_pieces(a + b);
    let m = q.len() - 1;
    assert(pa.last() =~= Seq::<char>::empty());
    assert(pa.take(pa.len() - 1) =~= p);
    assert(pq.take(pq.len() - 1) =~= p + q.take(m));
    assert(pq[pq.len() - 1] == q[m]);
    assert(strip_crs(p + q.take(m)) =~= strip_crs(p) + strip_crs(q.take(m)));
    if q[m].len() != 0 {
        assert((strip_crs(p) + strip_crs(q.take(m))).push(q[m]) =~= strip_crs(p) + strip_crs(
            q.take(m),
        ).push(q[m]));
    }
}

// ------------------------------------------------------------------
// Words
// ------------------------------------------------------------------

/// `str::split_whitespace`: the maximal runs of characters of `s` that are
/// not whitespace, in order.
pub open spec fn words(s: Seq<char>) -> Seq<Seq<char>>
    decreases s.len(),
{
    if s.len() == 0 {
        Seq::empty()
    } else {
        let w = words(s.drop_last());
        let c = s.last();
        if is_white_space(c) {
            w
        } else if s.len() == 1 || is_white_space(s[s.len() - 2]) {
            w.push(seq![c])
        } else {
            w.update(w.len() - 1, w.last().push(c))
        }
    }
}

/// Whether `w` holds no whitespace.
pub open spec fn no_white_space(w: Seq<char>) -> bool {
    forall|i: int| 0 <= i < w.len() ==> !is_white_space(#[trigger] w[i])
}

/// A word without whitespace after a text that is empty or ends in
/// whitespace is one more word.
pub proof fn lemma_words_append_word(s: Seq<char>, w: Seq<char>)
    requires
        w.len() > 0,
        no_white_space(w),
        s.len() == 0 || is_white_space(s.last()),
    ensures
        words(s + w) == words(s).push(w),
    decreases w.len(),
{
    let c = w.last();
    assert(c == w[w.len() - 1]);
    let w0 = w.drop_last();
    assert((s + w).drop_last() =~= s + w0);
    assert((s + w).last() == c);
    if w0.len() == 0 {
        assert(s + w0 =~= s);
        assert(w =~= seq![c]);
        if s.len() > 0 {
            assert((s + w)[(s + w).len() - 2] == s.last());
        }
    } else {
        assert forall|i: int| 0 <= i < w0.len() implies !is_white_space(#[trigger] w0[i]) by {
            assert(w0[i] == w[i]);
        }
        lemma_words_append_word(s, w0);
        assert((s + w)[(s + w).len() - 2] == w0.last());
        assert(w0.last() == w[w0.len() - 1]);
        let ws = words(s).push(w0);
        assert(w0.push(c) =~= w);
        assert(ws.update(ws.len() - 1, ws.last().push(c)) =~= words(s).push(w));
    }
}

/// A space adds no word.
pub proof fn lemma_words_append_space(s: Seq<char>)
    ensures
        words(s.push(' ')) == words(s),
{
    assert(s.push(' ').drop_last() =~= s);
    assert(is_white_space(' '));
}

/// Trimming a text that starts and ends with other characters than
/// whitespace leaves it as it is.
pub proof fn lemma_trim_unchanged(s: Seq<char>)
    requires
        s.len() > 0,
        !is_white_space(s[0]),
        !is_white_space(s.last()),
    ensures
        trim(s) == s,
{
    assert(trim_start_by(s, None) == s);
    assert(trim_end_by(s, None) == s);
}

/// The words of `s`, as `str::split_whitespace` splits them.
pub fn split_words(s: &[char]) -> (ws: Vec<Vec<char>>)
    ensures
        ws.deep_view() == words(s@),
{
    let n = s.len();
    let mut done: Vec<Vec<char>> = Vec::new();
    let mut cur: Vec<char> = Vec::new();
    let mut i: usize = 0;
    proof {
        assert(s@.take(0) =~= Seq::<char>::empty());
    }
    while i < n
        invariant
            n == s@.len(),
            i <= n,
            cur@.len() > 0 <==> (i > 0 && !is_white_space(s@[i - 1])),
            cur@.len() == 0 ==> done.deep_view() =~= words(s@.take(i as int)),
            cur@.len() > 0 ==> done.deep_view().push(cur@) =~= words(s@.take(i as int)),
        decreases n - i,
    {
        let c = s[i];
        let ghost t = s@.take(i + 1);
        proof {
            assert(t.drop_last() =~= s@.take(i as int));
            assert(t.last() == c);
            if i > 0 {
                assert(t[t.len() - 2] == s@[i - 1]);
            }
        }
        if char_is_whitespace(c) {
            if cur.len() > 0 {
                let ghost old_done = done.deep_view();
                let ghost last = cur@;
                proof {
                    assert(cur.deep_view() =~= cur@);
                }
                done.push(cur);
                cur = Vec::new();
                proof {
                    assert(done.deep_view() =~= old_done.push(last));
                }
            }
        } else {
            proof {
                if cur@.len() > 0 {
                    assert(done.deep_view().push(cur@.push(c)) =~= words(t));
                } else {
                    assert(done.deep_view().push(seq![c]) =~= words(t));
                }
            }
            let ghost old_cur = cur@;
            cur.push(c);
            proof {
                assert(cur@ =~= old_cur.push(c));
                if old_cur.len() == 0 {
                    assert(cur@ =~= seq![c]);
                }
            }
        }
        i = i + 1;
    }
    proof {
        assert(s@.take(n as int) =~= s@);
    }
    if cur.len() > 0 {
        let ghost old_done = done.deep_view();
        let ghost last = cur@;
        proof {
            assert(cur.deep_view() =~= cur@);
        }
        done.push(cur);
        proof {
            assert(done.deep_view() =~= old_done.push(last));
        }
    }
    done
}

} // verus!
