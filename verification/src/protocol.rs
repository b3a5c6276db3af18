//! The beanstalkd text protocol as the client speaks it: the command
//! lines it sends and the reading of the reply lines the server sends
//! back.

use vstd::prelude::*;
use vstd::utf8::{decode_utf8, valid_utf8};

use crate::number::{
    decimal, is_digit, lemma_decimal_digits, law_decimal_round_trip, parse_u64, parse_u64_spec, parse_usize,
    parse_usize_spec, push_decimal, IntError,
};
use crate::text::{
    chars_of, is_white_space, lemma_trim_unchanged, lemma_words_append_space, lemma_words_append_word,
    no_white_space, push_char, str_eq, split_words, strip_prefix, strip_prefix_slice, string_of, trim,
    trim_end, trim_end_slice, trim_slice, words,
};

verus! {

/// `std::string::FromUtf8Error`, the error of `String::from_utf8`.
#[verifier::external_type_specification]
#[verifier::external_body]
pub struct ExFromUtf8Error(std::string::FromUtf8Error);

// ------------------------------------------------------------------
// Commands
// ------------------------------------------------------------------

/// A command that the client sends.
pub enum Command {
    /// `stats`: server statistics.
    Stats,
    /// `list-tubes`: the names of all tubes.
    ListTubes,
    /// `stats-tube <tube>`: statistics of a tube.
    StatsTube(String),
    /// `use <tube>`: the tube that later puts go to.
    Use(String),
    /// `put <pri> <delay> <ttr> <bytes>`: the header of a job of `bytes`
    /// bytes, which follows it.
    Put { priority: u32, delay: u32, ttr: u32, bytes: usize },
    /// `reserve-with-timeout <seconds>`.
    ReserveWithTimeout(u32),
    /// `delete <id>`.
    Delete(u64),
    /// `kick <bound>`.
    Kick(u32),
    /// `peek <id>`.
    Peek(u64),
    /// `peek-ready`.
    PeekReady,
    /// `peek-buried`.
    PeekBuried,
    /// `peek-delayed`.
    PeekDelayed,
    /// `stats-job <id>`.
    StatsJob(u64),
    /// `stats-group <name>`.
    StatsGroup(String),
    /// `flush-tube <tube>`.
    FlushTube(String),
    /// `delete-batch <id> <id> ...`.
    DeleteBatch(Vec<u64>),
    /// `bury <id> <priority>`.
    Bury(u64, u32),
    /// `pause-tube <tube> <delay>`.
    PauseTube(String, u32),
}

/// The numbers of `ids` in decimal, separated by single spaces.
pub open spec fn joined_decimals(ids: Seq<u64>) -> Seq<char>
    decreases ids.len(),
{
    if ids.len() == 0 {
        Seq::empty()
    } else if ids.len() == 1 {
        decimal(ids[0] as nat)
    } else {
        joined_decimals(ids.drop_last()) + seq![' '] + decimal(ids.last() as nat)
    }
}

/// A word, a space and a decimal number.
pub open spec fn word_number(word: Seq<char>, n: nat) -> Seq<char> {
    word + seq![' '] + decimal(n)
}

impl Command {
    /// The text of the command line, without its line ending.
    pub open spec fn text(&self) -> Seq<char> {
        match self {
            Command::Stats => "stats"@,
            Command::ListTubes => "list-tubes"@,
            Command::StatsTube(tube) => "stats-tube "@ + tube@,
            Command::Use(tube) => "use "@ + tube@,
            Command::Put { priority, delay, ttr, bytes } => word_number(
                word_number(word_number(word_number("put"@, *priority as nat), *delay as nat), *ttr as nat),
                *bytes as nat,
            ),
            Command::ReserveWithTimeout(secs) => word_number("reserve-with-timeout"@, *secs as nat),
            Command::Delete(id) => word_number("delete"@, *id as nat),
            Command::Kick(bound) => word_number("kick"@, *bound as nat),
            Command::Peek(id) => word_number("peek"@, *id as nat),
            Command::PeekReady => "peek-ready"@,
            Command::PeekBuried => "peek-buried"@,
            Command::PeekDelayed => "peek-delayed"@,
            Command::StatsJob(id) => word_number("stats-job"@, *id as nat),
            Command::StatsGroup(name) => "stats-group "@ + name@,
            Command::FlushTube(tube) => "flush-tube "@ + tube@,
            Command::DeleteBatch(ids) => "delete-batch "@ + joined_decimals(ids@),
            Command::Bury(id, priority) => word_number(word_number("bury"@, *id as nat), *priority as nat),
            Command::PauseTube(tube, delay) => word_number("pause-tube "@ + tube@, *delay as nat),
        }
    }

    /// The command line to send: its text and `\r\n`.
    pub fn encode(&self) -> (line: String)
        ensures
            line@ == self.text() + seq!['\r', '\n'],
    {
        let mut s = String::new();
        match self {
            Command::Stats => s.append("stats"),
            Command::ListTubes => s.append("list-tubes"),
            Command::StatsTube(tube) => {
                s.append("stats-tube ");
                s.append(tube.as_str());
            },
            Command::Use(tube) => {
                s.append("use ");
                s.append(tube.as_str());
            },
            Command::Put { priority, delay, ttr, bytes } => {
                s.append("put");
                push_word_number(&mut s, *priority as u64);
                push_word_number(&mut s, *delay as u64);
                push_word_number(&mut s, *ttr as u64);
                push_word_number(&mut s, *bytes as u64);
            },
            Command::ReserveWithTimeout(secs) => {
                s.append("reserve-with-timeout");
                push_word_number(&mut s, *secs as u64);
            },
            Command::Delete(id) => {
                s.append("delete");
                push_word_number(&mut s, *id);
            },
            Command::Kick(bound) => {
                s.append("kick");
                push_word_number(&mut s, *bound as u64);
            },
            Command::Peek(id) => {
                s.append("peek");
                push_word_number(&mut s, *id);
            },
            Command::PeekReady => s.append("peek-ready"),
            Command::PeekBuried => s.append("peek-buried"),
            Command::PeekDelayed => s.append("peek-delayed"),
            Command::StatsJob(id) => {
                s.append("stats-job");
                push_word_number(&mut s, *id);
            },
            Command::StatsGroup(name) => {
                s.append("stats-group ");
                s.append(name.as_str());
            },
            Command::FlushTube(tube) => {
                s.append("flush-tube ");
                s.append(tube.as_str());
            },
            Command::DeleteBatch(ids) => {
                s.append("delete-batch ");
                push_joined(&mut s, ids);
            },
            Command::Bury(id, priority) => {
                s.append("bury");
                push_word_number(&mut s, *id);
                push_word_number(&mut s, *priority as u64);
            },
            Command::PauseTube(tube, delay) => {
                s.append("pause-tube ");
                s.append(tube.as_str());
                push_word_number(&mut s, *delay as u64);
            },
        }
        push_char(&mut s, '\r');
        push_char(&mut s, '\n');
        assert(s@ =~= self.text() + seq!['\r', '\n']);
        s
    }
}

/// Appends a space and the decimal text of `n`.
fn push_word_number(s: &mut String, n: u64)
    ensures
        final(s)@ == old(s)@ + seq![' '] + decimal(n as nat),
{
    push_char(s, ' ');
    push_decimal(s, n);
    assert(s@ =~= old(s)@ + seq![' '] + decimal(n as nat));
}

/// Appends the numbers of `ids`, separated by single spaces.
fn push_joined(s: &mut String, ids: &Vec<u64>)
    ensures
        final(s)@ == old(s)@ + joined_decimals(ids@),
{
    let n = ids.len();
    for i in 0..n
        invariant
            n == ids@.len(),
            s@ == old(s)@ + joined_decimals(ids@.take(i as int)),
    {
        let ghost before = s@;
        proof {
            assert(ids@.take(i + 1).drop_last() =~= ids@.take(i as int));
            assert(ids@.take(i + 1).last() == ids@[i as int]);
        }
        if i > 0 {
            push_word_number(s, ids[i]);
            assert(s@ =~= old(s)@ + joined_decimals(ids@.take(i + 1)));
        } else {
            push_decimal(s, ids[i]);
            assert(ids@.take(1) =~= seq![ids@[0]]);
            assert(s@ =~= old(s)@ + joined_decimals(ids@.take(i + 1)));
        }
    }
    assert(ids@.take(n as int) =~= ids@);
}

// ------------------------------------------------------------------
// Replies
// ------------------------------------------------------------------

/// Why a reply is not the one that a command expects.
#[derive(Debug)]
pub enum ReplyError {
    /// The connection closed before a line came.
    Closed,
    /// The server answered with another line than the command expects;
    /// holds that line.
    Unexpected(String),
    /// A number in the reply is not an unsigned decimal number of the
    /// expected size.
    BadNumber(IntError),
    /// The reply has too few fields; holds a message that quotes it.
    Malformed(String),
    /// A job body or YAML body is not valid UTF-8.
    BadBody(std::string::FromUtf8Error),
}

/// The line of a reply, as read from the connection: `None` when nothing
/// came (the connection closed), otherwise the text without trailing
/// whitespace.
pub open spec fn reply_line(raw: Seq<char>) -> Option<Seq<char>> {
    if raw.len() == 0 {
        None
    } else {
        Some(trim_end(raw))
    }
}

/// Turns what was read from the connection into a reply line: the text
/// without its trailing whitespace (the line ending among it), or
/// `Closed` when nothing was read.
pub fn finish_line(raw: &str) -> (r: Result<String, ReplyError>)
    ensures
        r matches Ok(line) ==> reply_line(raw@) == Some(line@),
        r is Err ==> reply_line(raw@) is None && r matches Err(ReplyError::Closed),
{
    let cs = chars_of(raw);
    if cs.len() == 0 {
        return Err(ReplyError::Closed);
    }
    Ok(string_of(trim_end_slice(cs.as_slice())))
}

/// Checks a one-word reply such as `DELETED`, `BURIED` or `PAUSED`.
pub fn expect_reply(line: &str, expected: &str) -> (r: Result<(), ReplyError>)
    ensures
        r is Ok <==> line@ == expected@,
        r matches Err(e) ==> e matches ReplyError::Unexpected(l) && l@ == line@,
{
    if str_eq(line, expected) {
        Ok(())
    } else {
        Err(ReplyError::Unexpected(line.to_owned()))
    }
}

/// The text of a reply after `prefix` and a space.
pub open spec fn after_prefix_word(line: Seq<char>, prefix: Seq<char>) -> Option<Seq<char>> {
    match strip_prefix(line, prefix) {
        Some(rest) => strip_prefix(rest, seq![' ']),
        None => None,
    }
}

/// What reading a number gives: the number, or `BadNumber` with why not.
pub open spec fn number_or_error(r: Result<u64, IntError>, v: Result<u64, ReplyError>) -> bool {
    match r {
        Ok(n) => v == Ok::<u64, ReplyError>(n),
        Err(k) => v matches Err(ReplyError::BadNumber(k2)) && k2 == k,
    }
}

fn number_reply(digits: &[char]) -> (v: Result<u64, ReplyError>)
    ensures
        number_or_error(parse_u64_spec(digits@), v),
{
    match parse_u64(digits) {
        Ok(n) => Ok(n),
        Err(k) => Err(ReplyError::BadNumber(k)),
    }
}

/// Reads a reply of a prefix, a space and a number, such as `KICKED 5`
/// or `INSERTED 42`.
pub fn parse_number_reply(line: &str, prefix: &str) -> (r: Result<u64, ReplyError>)
    ensures
        match after_prefix_word(line@, prefix@) {
            Some(rest) => number_or_error(parse_u64_spec(rest), r),
            None => r matches Err(ReplyError::Unexpected(l)) && l@ == line@,
        },
        forall|n: u64|
            line@ == prefix@ + seq![' '] + #[trigger] decimal(n as nat) ==> r == Ok::<u64, ReplyError>(n),
{
    proof {
        assert forall|n: u64| line@ == prefix@ + seq![' '] + #[trigger] decimal(n as nat) implies
            after_prefix_word(line@, prefix@) == Some(decimal(n as nat)) && parse_u64_spec(
            decimal(n as nat),
        ) == Ok::<u64, IntError>(n) by {
            law_number_reply_round_trip(prefix@, n);
        }
    }
    let cs = chars_of(line);
    let p = chars_of(prefix);
    let space: [char; 1] = [' '];
    assert(space@ =~= seq![' ']);
    match strip_prefix_slice(cs.as_slice(), p.as_slice()) {
        Some(rest) => match strip_prefix_slice(rest, space.as_slice()) {
            Some(digits) => number_reply(digits),
            None => Err(ReplyError::Unexpected(line.to_owned())),
        },
        None => Err(ReplyError::Unexpected(line.to_owned())),
    }
}

/// Reads the reply to `use`: `USING <tube>`, giving the tube's name.
pub fn parse_using_reply(line: &str) -> (r: Result<String, ReplyError>)
    ensures
        match strip_prefix(line@, "USING "@) {
            Some(name) => r matches Ok(n) && n@ == name,
            None => r matches Err(ReplyError::Unexpected(l)) && l@ == line@,
        },
{
    let cs = chars_of(line);
    let p = chars_of("USING ");
    match strip_prefix_slice(cs.as_slice(), p.as_slice()) {
        Some(name) => Ok(string_of(name)),
        None => Err(ReplyError::Unexpected(line.to_owned())),
    }
}

/// The message of a reply that has too few fields.
pub open spec fn malformed_message(line: Seq<char>) -> Seq<char> {
    "unexpected response: "@ + line
}

/// What the header of a job reply (`<PREFIX> <id> <bytes>`) gives: the
/// job's id and the size of its body.
pub open spec fn job_header_result(line: Seq<char>, prefix: Seq<char>, r: Result<(u64, usize), ReplyError>) -> bool {
    if !prefix.is_prefix_of(line) {
        r matches Err(ReplyError::Unexpected(l)) && l@ == line
    } else if words(line).len() < 3 {
        r matches Err(ReplyError::Malformed(msg)) && msg@ == malformed_message(line)
    } else {
        match parse_u64_spec(words(line)[1]) {
            Err(k) => r matches Err(ReplyError::BadNumber(k2)) && k2 == k,
            Ok(id) => match parse_usize_spec(words(line)[2]) {
                Err(k) => r matches Err(ReplyError::BadNumber(k2)) && k2 == k,
                Ok(bytes) => r == Ok::<(u64, usize), ReplyError>((id, bytes)),
            },
        }
    }
}

/// The reading itself, as its spec function says it.
fn read_job_header(line: &str, prefix: &str) -> (r: Result<(u64, usize), ReplyError>)
    ensures
        job_header_result(line@, prefix@, r),
{
    let cs = chars_of(line);
    let p = chars_of(prefix);
    if !crate::text::has_prefix(cs.as_slice(), p.as_slice()) {
        return Err(ReplyError::Unexpected(line.to_owned()));
    }
    let parts = split_words(cs.as_slice());
    proof {
        assert(parts.deep_view().len() == parts@.len());
    }
    if parts.len() < 3 {
        let mut msg = String::new();
        msg.append("unexpected response: ");
        msg.append(line);
        return Err(ReplyError::Malformed(msg));
    }
    proof {
        assert(parts.deep_view()[1] == parts@[1]@);
        assert(parts.deep_view()[2] == parts@[2]@);
    }
    let id = match parse_u64(parts[1].as_slice()) {
        Ok(id) => id,
        Err(k) => return Err(ReplyError::BadNumber(k)),
    };
    let bytes = match parse_usize(parts[2].as_slice()) {
        Ok(b) => b,
        Err(k) => return Err(ReplyError::BadNumber(k)),
    };
    Ok((id, bytes))
}

/// Reads the header of a reply that carries a job (`RESERVED` or
/// `FOUND`): `<PREFIX> <id> <bytes>`, giving the id and the size of the
/// body that follows.
pub fn parse_job_header(line: &str, prefix: &str) -> (r: Result<(u64, usize), ReplyError>)
    ensures
        job_header_result(line@, prefix@, r),
        forall|id: u64, bytes: usize|
            prefix@.len() > 0 && no_white_space(prefix@) && line@ == prefix@ + seq![' '] + #[trigger] decimal(
                id as nat,
            ) + seq![' '] + #[trigger] decimal(bytes as nat) ==> r == Ok::<(u64, usize), ReplyError>((id, bytes)),
{
    let r = read_job_header(line, prefix);
    proof {
        assert forall|id: u64, bytes: usize|
            prefix@.len() > 0 && no_white_space(prefix@) && line@ == prefix@ + seq![' '] + #[trigger] decimal(
                id as nat,
            ) + seq![' '] + #[trigger] decimal(bytes as nat) implies (forall|x: Result<(u64, usize), ReplyError>|
            #[trigger] job_header_result(line@, prefix@, x) ==> x == Ok::<(u64, usize), ReplyError>((id, bytes))) by {
            law_job_header_round_trip(prefix@, id, bytes);
        }
    }
    r
}

/// What the header of a YAML reply (`OK <bytes>`) gives: the size of the
/// body that follows.
pub open spec fn ok_header_result(line: Seq<char>, r: Result<usize, ReplyError>) -> bool {
    match strip_prefix(line, "OK "@) {
        None => r matches Err(ReplyError::Unexpected(l)) && l@ == line,
        Some(rest) => match parse_usize_spec(trim(rest)) {
            Ok(n) => r == Ok::<usize, ReplyError>(n),
            Err(k) => r matches Err(ReplyError::BadNumber(k2)) && k2 == k,
        },
    }
}

/// The reading itself, as its spec function says it.
fn read_ok_header(line: &str) -> (r: Result<usize, ReplyError>)
    ensures
        ok_header_result(line@, r),
{
    let cs = chars_of(line);
    let p = chars_of("OK ");
    match strip_prefix_slice(cs.as_slice(), p.as_slice()) {
        Some(rest) => match parse_usize(trim_slice(rest, None)) {
            Ok(n) => Ok(n),
            Err(k) => Err(ReplyError::BadNumber(k)),
        },
        None => Err(ReplyError::Unexpected(line.to_owned())),
    }
}

/// Reads the header of a reply that carries YAML: `OK <bytes>`, giving
/// the size of the body that follows.
pub fn parse_ok_header(line: &str) -> (r: Result<usize, ReplyError>)
    ensures
        ok_header_result(line@, r),
        forall|bytes: usize| line@ == "OK "@ + #[trigger] decimal(bytes as nat) ==> r == Ok::<usize, ReplyError>(bytes),
{
    let r = read_ok_header(line);
    proof {
        assert forall|bytes: usize| line@ == "OK "@ + #[trigger] decimal(bytes as nat) implies (forall|
            x: Result<usize, ReplyError>,
        | #[trigger] ok_header_result(line@, x) ==> x == Ok::<usize, ReplyError>(bytes)) by {
            law_ok_header_round_trip(bytes);
        }
    }
    r
}

/// What the reply to `delete-batch` (`DELETED_BATCH <deleted> <not found>`)
/// gives: the two counts.
pub open spec fn deleted_batch_result(line: Seq<char>, r: Result<(u64, u64), ReplyError>) -> bool {
    match strip_prefix(line, "DELETED_BATCH "@) {
        Some(rest) if words(rest).len() == 2 => match parse_u64_spec(words(rest)[0]) {
            Err(k) => r matches Err(ReplyError::BadNumber(k2)) && k2 == k,
            Ok(deleted) => match parse_u64_spec(words(rest)[1]) {
                Err(k) => r matches Err(ReplyError::BadNumber(k2)) && k2 == k,
                Ok(not_found) => r == Ok::<(u64, u64), ReplyError>((deleted, not_found)),
            },
        },
        _ => r matches Err(ReplyError::Unexpected(l)) && l@ == line,
    }
}

/// The reading itself, as its spec function says it.
fn read_deleted_batch(line: &str) -> (r: Result<(u64, u64), ReplyError>)
    ensures
        deleted_batch_result(line@, r),
{
    let cs = chars_of(line);
    let p = chars_of("DELETED_BATCH ");
    match strip_prefix_slice(cs.as_slice(), p.as_slice()) {
        Some(rest) => {
            let parts = split_words(rest);
            proof {
                assert(parts.deep_view().len() == parts@.len());
            }
            if parts.len() == 2 {
                proof {
                    assert(parts.deep_view()[0] == parts@[0]@);
                    assert(parts.deep_view()[1] == parts@[1]@);
                }
                let deleted = match parse_u64(parts[0].as_slice()) {
                    Ok(n) => n,
                    Err(k) => return Err(ReplyError::BadNumber(k)),
                };
                let not_found = match parse_u64(parts[1].as_slice()) {
                    Ok(n) => n,
                    Err(k) => return Err(ReplyError::BadNumber(k)),
                };
                Ok((deleted, not_found))
            } else {
                Err(ReplyError::Unexpected(line.to_owned()))
            }
        },
        None => Err(ReplyError::Unexpected(line.to_owned())),
    }
}

/// Reads the reply to `delete-batch`: `DELETED_BATCH <deleted> <not found>`.
pub fn parse_deleted_batch(line: &str) -> (r: Result<(u64, u64), ReplyError>)
    ensures
        deleted_batch_result(line@, r),
        forall|deleted: u64, not_found: u64|
            line@ == "DELETED_BATCH "@ + #[trigger] decimal(deleted as nat) + seq![' '] + #[trigger] decimal(
                not_found as nat,
            ) ==> r == Ok::<(u64, u64), ReplyError>((deleted, not_found)),
{
    let r = read_deleted_batch(line);
    proof {
        assert forall|deleted: u64, not_found: u64|
            line@ == "DELETED_BATCH "@ + #[trigger] decimal(deleted as nat) + seq![' '] + #[trigger] decimal(
                not_found as nat,
            ) implies (forall|x: Result<(u64, u64), ReplyError>| #[trigger] deleted_batch_result(line@, x)
            ==> x == Ok::<(u64, u64), ReplyError>((deleted, not_found))) by {
            law_deleted_batch_round_trip(deleted, not_found);
        }
    }
    r
}

/// Calls `String::from_utf8`, which accepts exactly the byte sequences
/// that are valid UTF-8 and gives the characters they encode.
#[verifier::external_body]
fn string_from_utf8(bytes: Vec<u8>) -> (r: Result<String, std::string::FromUtf8Error>)
    ensures
        r is Ok <==> valid_utf8(bytes@),
        r matches Ok(s) ==> s@ == decode_utf8(bytes@),
{
    String::from_utf8(bytes)
}

/// The text of a body of which `len` bytes were read into `buf`, with
/// anything after them (the line ending) dropped.
pub fn decode_body(buf: Vec<u8>, len: usize) -> (r: Result<String, ReplyError>)
    requires
        len <= buf@.len(),
    ensures
        r is Ok <==> valid_utf8(buf@.take(len as int)),
        r matches Ok(s) ==> s@ == decode_utf8(buf@.take(len as int)),
        r matches Err(e) ==> e is BadBody,
{
    let mut body = buf;
    body.truncate(len);
    assert(body@ =~= buf@.take(len as int));
    match string_from_utf8(body) {
        Ok(s) => Ok(s),
        Err(e) => Err(ReplyError::BadBody(e)),
    }
}

// ------------------------------------------------------------------
// Replies as the server writes them
// ------------------------------------------------------------------

proof fn lemma_decimal_word(n: nat)
    ensures
        decimal(n).len() > 0,
        no_white_space(decimal(n)),
{
    lemma_decimal_digits(n);
    assert forall|i: int| 0 <= i < decimal(n).len() implies !is_white_space(#[trigger] decimal(n)[i]) by {
        assert(is_digit(decimal(n)[i]));
    }
}

/// The words of `a`, a space and `b`, each a word without whitespace.
proof fn lemma_two_words(a: Seq<char>, b: Seq<char>)
    requires
        a.len() > 0,
        no_white_space(a),
        b.len() > 0,
        no_white_space(b),
    ensures
        words(a + seq![' '] + b) == seq![a, b],
{
    let e = Seq::<char>::empty();
    lemma_words_append_word(e, a);
    assert(e + a =~= a);
    lemma_words_append_space(a);
    assert(a.push(' ') =~= a + seq![' ']);
    lemma_words_append_word(a + seq![' '], b);
    assert(words(e) =~= Seq::<Seq<char>>::empty());
    assert(Seq::<Seq<char>>::empty().push(a).push(b) =~= seq![a, b]);
}

/// A reply of `prefix`, a space and the decimal text of `n`, as the server
/// writes `INSERTED <id>` or `KICKED <count>`, reads as `n`.
pub proof fn law_number_reply_round_trip(prefix: Seq<char>, n: u64)
    ensures
        after_prefix_word(prefix + seq![' '] + decimal(n as nat), prefix) == Some(decimal(n as nat)),
        parse_u64_spec(decimal(n as nat)) == Ok::<u64, IntError>(n),
{
    let line = prefix + seq![' '] + decimal(n as nat);
    assert(prefix.is_prefix_of(line));
    assert(line.skip(prefix.len() as int) =~= seq![' '] + decimal(n as nat));
    assert(seq![' '].is_prefix_of(seq![' '] + decimal(n as nat)));
    assert((seq![' '] + decimal(n as nat)).skip(1) =~= decimal(n as nat));
    lemma_decimal_word(n as nat);
    law_decimal_round_trip(n as nat, u64::MAX as nat);
    assert(decimal(n as nat)[0] != '+' && decimal(n as nat)[0] != '-') by {
        lemma_decimal_digits(n as nat);
        assert(is_digit(decimal(n as nat)[0]));
    }
}

/// The header of a job reply as the server writes it, `prefix`, the job's
/// id and the size of its body, separated by spaces, reads as that id and
/// that size.
pub proof fn law_job_header_round_trip(prefix: Seq<char>, id: u64, bytes: usize)
    requires
        prefix.len() > 0,
        no_white_space(prefix),
    ensures
        forall|r: Result<(u64, usize), ReplyError>|
            job_header_result(
                prefix + seq![' '] + decimal(id as nat) + seq![' '] + decimal(bytes as nat),
                prefix,
                r,
            ) <==> r == Ok::<(u64, usize), ReplyError>((id, bytes)),
{
    let di = decimal(id as nat);
    let db = decimal(bytes as nat);
    let line = prefix + seq![' '] + di + seq![' '] + db;
    assert(prefix.is_prefix_of(line));
    lemma_decimal_word(id as nat);
    lemma_decimal_word(bytes as nat);
    lemma_two_words(prefix, di);
    lemma_words_append_space(prefix + seq![' '] + di);
    assert((prefix + seq![' '] + di).push(' ') =~= prefix + seq![' '] + di + seq![' ']);
    lemma_words_append_word(prefix + seq![' '] + di + seq![' '], db);
    assert(words(line) =~= seq![prefix, di, db]);
    lemma_decimal_digits(id as nat);
    lemma_decimal_digits(bytes as nat);
    assert(is_digit(di[0]) && is_digit(db[0]));
    law_decimal_round_trip(id as nat, u64::MAX as nat);
    law_decimal_round_trip(bytes as nat, usize::MAX as nat);
}

/// The header of a YAML reply as the server writes it, `OK` and the size
/// of the body, reads as that size.
pub proof fn law_ok_header_round_trip(bytes: usize)
    ensures
        forall|r: Result<usize, ReplyError>|
            ok_header_result("OK "@ + decimal(bytes as nat), r) <==> r == Ok::<usize, ReplyError>(bytes),
{
    reveal_strlit("OK ");
    let d = decimal(bytes as nat);
    let line = "OK "@ + d;
    assert("OK "@.is_prefix_of(line));
    assert(line.skip(3) =~= d);
    lemma_decimal_word(bytes as nat);
    assert(d.last() == d[d.len() - 1]);
    lemma_trim_unchanged(d);
    lemma_decimal_digits(bytes as nat);
    assert(is_digit(d[0]));
    law_decimal_round_trip(bytes as nat, usize::MAX as nat);
}

/// The reply to `delete-batch` as the server writes it, the number of jobs
/// deleted and the number not found, reads as those two numbers, in that
/// order.
pub proof fn law_deleted_batch_round_trip(deleted: u64, not_found: u64)
    ensures
        forall|r: Result<(u64, u64), ReplyError>|
            deleted_batch_result(
                "DELETED_BATCH "@ + decimal(deleted as nat) + seq![' '] + decimal(not_found as nat),
                r,
            ) <==> r == Ok::<(u64, u64), ReplyError>((deleted, not_found)),
{
    reveal_strlit("DELETED_BATCH ");
    let dd = decimal(deleted as nat);
    let dn = decimal(not_found as nat);
    let p = "DELETED_BATCH "@;
    let line = p + dd + seq![' '] + dn;
    assert(p.is_prefix_of(line));
    assert(line.skip(p.len() as int) =~= dd + seq![' '] + dn);
    lemma_decimal_word(deleted as nat);
    lemma_decimal_word(not_found as nat);
    lemma_two_words(dd, dn);
    lemma_decimal_digits(deleted as nat);
    lemma_decimal_digits(not_found as nat);
    assert(is_digit(dd[0]) && is_digit(dn[0]));
    law_decimal_round_trip(deleted as nat, u64::MAX as nat);
    law_decimal_round_trip(not_found as nat, u64::MAX as nat);
}

// ------------------------------------------------------------------
// Commands as the server reads them
// ------------------------------------------------------------------

/// A word without whitespace is its only word.
proof fn lemma_word_alone(w: Seq<char>)
    requires
        w.len() > 0,
        no_white_space(w),
    ensures
        words(w) == seq![w],
{
    let e = Seq::<char>::empty();
    lemma_words_append_word(e, w);
    assert(e + w =~= w);
    assert(words(e) =~= Seq::<Seq<char>>::empty());
    assert(Seq::<Seq<char>>::empty().push(w) =~= seq![w]);
}

/// A space and a word after a text add that word to its words.
proof fn lemma_words_space_word(s: Seq<char>, w: Seq<char>)
    requires
        w.len() > 0,
        no_white_space(w),
    ensures
        words(s + seq![' '] + w) == words(s).push(w),
{
    lemma_words_append_space(s);
    assert(s.push(' ') =~= s + seq![' ']);
    lemma_words_append_word(s + seq![' '], w);
}

proof fn lemma_words_word_number(w: Seq<char>, n: nat)
    ensures
        words(word_number(w, n)) == words(w).push(decimal(n)),
{
    lemma_decimal_word(n);
    lemma_words_space_word(w, decimal(n));
}

proof fn lemma_words_joined(head: Seq<char>, ids: Seq<u64>)
    requires
        head.len() > 0,
        no_white_space(head),
    ensures
        words(head + seq![' '] + joined_decimals(ids)) == seq![head] + ids.map_values(
            |i: u64| decimal(i as nat),
        ),
    decreases ids.len(),
{
    let ds = ids.map_values(|i: u64| decimal(i as nat));
    lemma_word_alone(head);
    if ids.len() == 0 {
        lemma_words_append_space(head);
        assert(head.push(' ') =~= head + seq![' '] + joined_decimals(ids));
        assert(seq![head] + ds =~= seq![head]);
    } else if ids.len() == 1 {
        lemma_decimal_word(ids[0] as nat);
        lemma_words_space_word(head, decimal(ids[0] as nat));
        assert(seq![head].push(decimal(ids[0] as nat)) =~= seq![head] + ds);
    } else {
        let init = ids.drop_last();
        lemma_words_joined(head, init);
        lemma_decimal_word(ids.last() as nat);
        let front = head + seq![' '] + joined_decimals(init);
        lemma_words_space_word(front, decimal(ids.last() as nat));
        assert(head + seq![' '] + joined_decimals(ids) =~= front + seq![' '] + decimal(ids.last() as nat));
        assert((seq![head] + init.map_values(|i: u64| decimal(i as nat))).push(decimal(ids.last() as nat))
            =~= seq![head] + ds);
    }
}

/// The words that the server reads from a command line: the command's
/// name, then its arguments in the order the protocol gives them, each
/// number in decimal; a tube or group name counts as one word when it
/// holds no whitespace.
pub proof fn law_command_words(c: Command)
    ensures
        match c {
            Command::Put { priority, delay, ttr, bytes } => words(c.text()) == seq![
                "put"@,
                decimal(priority as nat),
                decimal(delay as nat),
                decimal(ttr as nat),
                decimal(bytes as nat),
            ],
            Command::ReserveWithTimeout(secs) => words(c.text()) == seq![
                "reserve-with-timeout"@,
                decimal(secs as nat),
            ],
            Command::Delete(id) => words(c.text()) == seq!["delete"@, decimal(id as nat)],
            Command::Kick(bound) => words(c.text()) == seq!["kick"@, decimal(bound as nat)],
            Command::Peek(id) => words(c.text()) == seq!["peek"@, decimal(id as nat)],
            Command::StatsJob(id) => words(c.text()) == seq!["stats-job"@, decimal(id as nat)],
            Command::Bury(id, priority) => words(c.text()) == seq![
                "bury"@,
                decimal(id as nat),
                decimal(priority as nat),
            ],
            Command::DeleteBatch(ids) => words(c.text()) == seq!["delete-batch"@] + ids@.map_values(
                |i: u64| decimal(i as nat),
            ),
            Command::PauseTube(tube, delay) => tube@.len() > 0 && no_white_space(tube@) ==> words(c.text())
                == seq!["pause-tube"@, tube@, decimal(delay as nat)],
            Command::StatsTube(tube) => tube@.len() > 0 && no_white_space(tube@) ==> words(c.text())
                == seq!["stats-tube"@, tube@],
            Command::Use(tube) => tube@.len() > 0 && no_white_space(tube@) ==> words(c.text()) == seq![
                "use"@,
                tube@,
            ],
            Command::FlushTube(tube) => tube@.len() > 0 && no_white_space(tube@) ==> words(c.text())
                == seq!["flush-tube"@, tube@],
            Command::StatsGroup(name) => name@.len() > 0 && no_white_space(name@) ==> words(c.text())
                == seq!["stats-group"@, name@],
            _ => true,
        },
{
    reveal_strlit("put");
    reveal_strlit("reserve-with-timeout");
    reveal_strlit("delete");
    reveal_strlit("kick");
    reveal_strlit("peek");
    reveal_strlit("stats-job");
    reveal_strlit("bury");
    reveal_strlit("delete-batch");
    reveal_strlit("delete-batch ");
    reveal_strlit("pause-tube");
    reveal_strlit("pause-tube ");
    reveal_strlit("stats-tube");
    reveal_strlit("stats-tube ");
    reveal_strlit("use");
    reveal_strlit("use ");
    reveal_strlit("flush-tube");
    reveal_strlit("flush-tube ");
    reveal_strlit("stats-group");
    reveal_strlit("stats-group ");
    match c {
        Command::Put { priority, delay, ttr, bytes } => {
            let w0 = "put"@;
            lemma_word_alone(w0);
            let w1 = word_number(w0, priority as nat);
            let w2 = word_number(w1, delay as nat);
            let w3 = word_number(w2, ttr as nat);
            lemma_words_word_number(w0, priority as nat);
            lemma_words_word_number(w1, delay as nat);
            lemma_words_word_number(w2, ttr as nat);
            lemma_words_word_number(w3, bytes as nat);
            assert(words(c.text()) =~= seq![
                w0,
                decimal(priority as nat),
                decimal(delay as nat),
                decimal(ttr as nat),
                decimal(bytes as nat),
            ]);
        },
        Command::ReserveWithTimeout(secs) => {
            lemma_word_alone("reserve-with-timeout"@);
            lemma_words_word_number("reserve-with-timeout"@, secs as nat);
            assert(words(c.text()) =~= seq!["reserve-with-timeout"@, decimal(secs as nat)]);
        },
        Command::Delete(id) => {
            lemma_word_alone("delete"@);
            lemma_words_word_number("delete"@, id as nat);
            assert(words(c.text()) =~= seq!["delete"@, decimal(id as nat)]);
        },
        Command::Kick(bound) => {
            lemma_word_alone("kick"@);
            lemma_words_word_number("kick"@, bound as nat);
            assert(words(c.text()) =~= seq!["kick"@, decimal(bound as nat)]);
        },
        Command::Peek(id) => {
            lemma_word_alone("peek"@);
            lemma_words_word_number("peek"@, id as nat);
            assert(words(c.text()) =~= seq!["peek"@, decimal(id as nat)]);
        },
        Command::StatsJob(id) => {
            lemma_word_alone("stats-job"@);
            lemma_words_word_number("stats-job"@, id as nat);
            assert(words(c.text()) =~= seq!["stats-job"@, decimal(id as nat)]);
        },
        Command::Bury(id, priority) => {
            lemma_word_alone("bury"@);
            lemma_words_word_number("bury"@, id as nat);
            lemma_words_word_number(word_number("bury"@, id as nat), priority as nat);
            assert(words(c.text()) =~= seq!["bury"@, decimal(id as nat), decimal(priority as nat)]);
        },
        Command::DeleteBatch(ids) => {
            lemma_words_joined("delete-batch"@, ids@);
            assert("delete-batch "@ =~= "delete-batch"@ + seq![' ']);
            assert(c.text() =~= "delete-batch"@ + seq![' '] + joined_decimals(ids@));
        },
        Command::PauseTube(tube, delay) => {
            if tube@.len() > 0 && no_white_space(tube@) {
                lemma_word_alone("pause-tube"@);
                lemma_words_space_word("pause-tube"@, tube@);
                assert("pause-tube "@ + tube@ =~= "pause-tube"@ + seq![' '] + tube@);
                lemma_words_word_number("pause-tube "@ + tube@, delay as nat);
                assert(words(c.text()) =~= seq!["pause-tube"@, tube@, decimal(delay as nat)]);
            }
        },
        Command::StatsTube(tube) => {
            if tube@.len() > 0 && no_white_space(tube@) {
                lemma_word_alone("stats-tube"@);
                lemma_words_space_word("stats-tube"@, tube@);
                assert(c.text() =~= "stats-tube"@ + seq![' '] + tube@);
                assert(words(c.text()) =~= seq!["stats-tube"@, tube@]);
            }
        },
        Command::Use(tube) => {
            if tube@.len() > 0 && no_white_space(tube@) {
                lemma_word_alone("use"@);
                lemma_words_space_word("use"@, tube@);
                assert(c.text() =~= "use"@ + seq![' '] + tube@);
                assert(words(c.text()) =~= seq!["use"@, tube@]);
            }
        },
        Command::FlushTube(tube) => {
            if tube@.len() > 0 && no_white_space(tube@) {
                lemma_word_alone("flush-tube"@);
                lemma_words_space_word("flush-tube"@, tube@);
                assert(c.text() =~= "flush-tube"@ + seq![' '] + tube@);
                assert(words(c.text()) =~= seq!["flush-tube"@, tube@]);
            }
        },
        Command::StatsGroup(name) => {
            if name@.len() > 0 && no_white_space(name@) {
                lemma_word_alone("stats-group"@);
                lemma_words_space_word("stats-group"@, name@);
                assert(c.text() =~= "stats-group"@ + seq![' '] + name@);
                assert(words(c.text()) =~= seq!["stats-group"@, name@]);
            }
        },
        _ => {},
    }
}

} // verus!
