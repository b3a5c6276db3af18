//! The address of the server to connect to.

use vstd::prelude::*;

use crate::text::{
    chars_of, contains_char, is_white_space, push_chars, trim, trim_end_by, trim_slice,
    trim_start_by, trimmed_by,
};

verus! {

/// The host used when the address names none.
pub const DEFAULT_HOST: &'static str = "localhost";

/// The port used when the address names none.
pub const DEFAULT_PORT: &'static str = "11300";

/// The address that `input` names, as `host:port`: the input trimmed;
/// `localhost:11300` for an empty input; `localhost` before an input that
/// starts with `:`; `:11300` after an input that has no `:`.
pub open spec fn resolved_addr(input: Seq<char>) -> Seq<char> {
    let t = trim(input);
    if t.len() == 0 {
        DEFAULT_HOST@ + seq![':'] + DEFAULT_PORT@
    } else if t[0] == ':' {
        DEFAULT_HOST@ + t
    } else if t.contains(':') {
        t
    } else {
        t + seq![':'] + DEFAULT_PORT@
    }
}

/// Normalize a host:port input string.
///
/// - `None` or empty -> `"localhost:11300"`
/// - `":1234"` -> `"localhost:1234"`
/// - `"myhost"` -> `"myhost:11300"`
/// - `"myhost:1234"` -> `"myhost:1234"`
pub fn resolve_addr(input: Option<&str>) -> (addr: String)
    ensures
        addr@ == resolved_addr(
            match input {
                Some(s) => s@,
                None => Seq::empty(),
            },
        ),
{
    let raw = match input {
        Some(s) => chars_of(s),
        None => Vec::new(),
    };
    let t = trim_slice(raw.as_slice(), None);
    let host = chars_of(DEFAULT_HOST);
    let port = chars_of(DEFAULT_PORT);
    let mut out = String::new();
    if t.len() == 0 {
        push_chars(&mut out, host.as_slice());
        crate::text::push_char(&mut out, ':');
        push_chars(&mut out, port.as_slice());
    } else if t[0] == ':' {
        push_chars(&mut out, host.as_slice());
        push_chars(&mut out, t);
    } else if contains_char(t, ':') {
        push_chars(&mut out, t);
    } else {
        push_chars(&mut out, t);
        crate::text::push_char(&mut out, ':');
        push_chars(&mut out, port.as_slice());
    }
    assert(out@ =~= resolved_addr(raw@));
    out
}

proof fn lemma_trim_start_first(s: Seq<char>, target: Option<char>)
    ensures
        trim_start_by(s, target).len() > 0 ==> !trimmed_by(trim_start_by(s, target)[0], target),
        trim_start_by(s, target).len() <= s.len(),
    decreases s.len(),
{
    if s.len() > 0 && trimmed_by(s[0], target) {
        lemma_trim_start_first(s.drop_first(), target);
    }
}

proof fn lemma_trim_end_keeps_front(s: Seq<char>, target: Option<char>)
    ensures
        trim_end_by(s, target).len() > 0 ==> !trimmed_by(trim_end_by(s, target).last(), target),
        trim_end_by(s, target).len() > 0 ==> trim_end_by(s, target)[0] == s[0],
        trim_end_by(s, target).len() <= s.len(),
        trim_end_by(s, target) == s.take(trim_end_by(s, target).len() as int),
    decreases s.len(),
{
    if s.len() > 0 && trimmed_by(s.last(), target) {
        let t = s.drop_last();
        lemma_trim_end_keeps_front(t, target);
        let r = trim_end_by(t, target);
        if r.len() > 0 {
            assert(r[0] == t[0]);
        }
        assert(t.take(r.len() as int) =~= s.take(r.len() as int));
    } else {
        assert(s.take(s.len() as int) =~= s);
    }
}

/// A trimmed text starts and ends with a character that is not whitespace.
proof fn lemma_trim_ends(s: Seq<char>)
    ensures
        trim(s).len() > 0 ==> !is_white_space(trim(s)[0]) && !is_white_space(trim(s).last()),
{
    let a = trim_start_by(s, None);
    lemma_trim_start_first(s, None);
    lemma_trim_end_keeps_front(a, None);
}

/// Trimming a text that starts and ends with a character that is not
/// whitespace leaves it as it is.
proof fn lemma_trim_fixed(s: Seq<char>)
    requires
        s.len() > 0 ==> !is_white_space(s[0]) && !is_white_space(s.last()),
    ensures
        trim(s) == s,
{
    assert(trim_start_by(s, None) == s);
    assert(trim_end_by(s, None) == s);
}

/// A resolved address has a host part and a port part: it holds a `:` and
/// does not start with one.
pub proof fn law_resolved_addr_shape(input: Seq<char>)
    ensures
        resolved_addr(input).contains(':'),
        resolved_addr(input)[0] != ':',
        resolved_addr(input).len() > 0 ==> !is_white_space(resolved_addr(input)[0])
            && !is_white_space(resolved_addr(input).last()),
{
    reveal_strlit("localhost");
    reveal_strlit("11300");
    let t = trim(input);
    lemma_trim_ends(input);
    let r = resolved_addr(input);
    if t.len() == 0 {
        assert(r[9] == ':');
    } else if t[0] == ':' {
        assert(r[9] == ':');
        assert(r.last() == t.last());
    } else if t.contains(':') {
    } else {
        assert(r[t.len() as int] == ':');
        assert(r[0] == t[0]);
    }
}

/// Resolving an address that was already resolved gives it back.
pub proof fn law_resolve_addr_idempotent(input: Seq<char>)
    ensures
        resolved_addr(resolved_addr(input)) == resolved_addr(input),
{
    let r = resolved_addr(input);
    law_resolved_addr_shape(input);
    lemma_trim_fixed(r);
}

} // verus!
