//! Parsing does not look beyond the line: what is read from the head of a
//! line does not depend on the bytes that stand behind the line. So a
//! framer that cuts the stream at each LF hands out what the parser reads
//! from the stream.

use vstd::prelude::*;
use crate::charset::{lemma_run_bounds, lemma_run_is, run, ByteClass, AT, BANG, COLON, CR, LF, SPACE};
use crate::grammar;
use crate::irc_stream::{lemma_line_break_bounds, ReadErrorView, StreamView};
use crate::message::MessageView;
use crate::parser::parse_result;

verus! {

/// Whether `s` ends with LF.
pub open spec fn ends_line(s: Seq<u8>) -> bool {
    s.len() > 0 && s.last() == LF
}

/// What was read, with `more` bytes behind what was left of the input.
pub open spec fn followed_by<T>(found: Option<(T, Seq<u8>)>, more: Seq<u8>) -> Option<
    (T, Seq<u8>),
> {
    match found {
        Some((value, rest)) => Some((value, rest + more)),
        None => None,
    }
}

/// Whether what was read stopped inside the line.
pub open spec fn stays_in_line<T>(found: Option<(T, Seq<u8>)>) -> bool {
    found matches Some((_, rest)) ==> ends_line(rest)
}

/// A run in a line ends inside the line, whatever stands behind the line.
pub proof fn lemma_run_in_line(s: Seq<u8>, more: Seq<u8>, class: ByteClass)
    requires
        ends_line(s),
    ensures
        run(s + more, class) == run(s, class),
        run(s, class) < s.len(),
        (s + more).take(run(s, class) as int) == s.take(run(s, class) as int),
        (s + more).skip(run(s, class) as int) == s.skip(run(s, class) as int) + more,
        ends_line(s.skip(run(s, class) as int)),
{
    let n = run(s, class) as int;
    lemma_run_bounds(s, class);
    if n == s.len() {
        assert(class.has(s.take(n)[n - 1]));
    }
    assert forall|i: int| 0 <= i < n implies class.has(#[trigger] (s + more)[i]) by {
        assert(class.has(s.take(n)[i]));
    }
    assert((s + more)[n] == s[n]);
    lemma_run_is(s + more, class, n);
    assert((s + more).take(n) =~= s.take(n));
    assert((s + more).skip(n) =~= s.skip(n) + more);
    assert(s.skip(n).last() == s.last());
}

/// Behind a byte of a line that is not its LF the line goes on.
pub proof fn lemma_byte_in_line(s: Seq<u8>, more: Seq<u8>)
    requires
        ends_line(s),
        s[0] != LF,
    ensures
        (s + more)[0] == s[0],
        (s + more).skip(1) == s.skip(1) + more,
        ends_line(s.skip(1)),
{
    assert((s + more).skip(1) =~= s.skip(1) + more);
    assert(s.skip(1).last() == s.last());
}

/// A token of a line is read from the line alone.
pub proof fn lemma_token_in_line(s: Seq<u8>, more: Seq<u8>, class: ByteClass)
    requires
        ends_line(s),
    ensures
        grammar::token(s + more, class) == followed_by(grammar::token(s, class), more),
        stays_in_line(grammar::token(s, class)),
{
    lemma_run_in_line(s, more, class);
}

/// The origin of a user in a line is read from the line alone.
pub proof fn lemma_user_info_in_line(s: Seq<u8>, more: Seq<u8>)
    requires
        ends_line(s),
    ensures
        grammar::user_info(s + more) == followed_by(grammar::user_info(s), more),
        stays_in_line(grammar::user_info(s)),
{
    lemma_token_in_line(s, more, ByteClass::Nickname);
    if let Some((nick, s1)) = grammar::nickname(s) {
        assert((s1 + more)[0] == s1[0]);
        if grammar::starts_with(s1, BANG) || grammar::starts_with(s1, AT) {
            lemma_byte_in_line(s1, more);
            let t = s1.skip(1);
            lemma_token_in_line(t, more, ByteClass::Host);
            lemma_token_in_line(t, more, ByteClass::Username);
            if let Some((user, s2)) = grammar::username(t) {
                assert((s2 + more)[0] == s2[0]);
                if grammar::starts_with(s2, AT) {
                    lemma_byte_in_line(s2, more);
                    lemma_token_in_line(s2.skip(1), more, ByteClass::Host);
                }
            }
        }
    }
}

/// The prefix of a line is read from the line alone.
pub proof fn lemma_prefix_in_line(s: Seq<u8>, more: Seq<u8>)
    requires
        ends_line(s),
    ensures
        grammar::prefix(s + more) == followed_by(grammar::prefix(s), more),
        stays_in_line(grammar::prefix(s)),
        grammar::behind_prefix(s + more) == grammar::behind_prefix(s) + more,
        ends_line(grammar::behind_prefix(s)),
{
    assert((s + more)[0] == s[0]);
    if grammar::starts_with(s, COLON) {
        lemma_byte_in_line(s, more);
        let t = s.skip(1);
        lemma_user_info_in_line(t, more);
        lemma_token_in_line(t, more, ByteClass::Host);
        if let Some((user, s1)) = grammar::user_info(t) {
            assert((s1 + more)[0] == s1[0]);
            if grammar::starts_with(s1, SPACE) {
                lemma_byte_in_line(s1, more);
            }
        }
        if let Some((host, s1)) = grammar::host(t) {
            assert((s1 + more)[0] == s1[0]);
            if grammar::starts_with(s1, SPACE) {
                lemma_byte_in_line(s1, more);
            }
        }
    }
}

/// The command of a line is read from the line alone.
pub proof fn lemma_command_in_line(s: Seq<u8>, more: Seq<u8>)
    requires
        ends_line(s),
    ensures
        grammar::command(s + more) == followed_by(grammar::command(s), more),
        stays_in_line(grammar::command(s)),
{
    lemma_token_in_line(s, more, ByteClass::Letter);
    lemma_run_in_line(s, more, ByteClass::Digit);
}

/// The parameters of a line are read from the line alone.
pub proof fn lemma_params_in_line(s: Seq<u8>, more: Seq<u8>)
    requires
        ends_line(s),
    ensures
        grammar::params(s + more) == (grammar::params(s).0, grammar::params(s).1 + more),
        ends_line(grammar::params(s).1),
    decreases s.len(),
{
    assert((s + more)[0] == s[0]);
    if grammar::starts_with(s, SPACE) {
        lemma_byte_in_line(s, more);
        let t = s.skip(1);
        assert((t + more)[0] == t[0]);
        if grammar::starts_with(t, COLON) {
            lemma_byte_in_line(t, more);
            lemma_run_in_line(t.skip(1), more, ByteClass::Trailing);
        } else {
            lemma_run_in_line(t, more, ByteClass::Middle);
            let n = run(t, ByteClass::Middle) as int;
            if n > 0 {
                lemma_params_in_line(t.skip(n), more);
            }
        }
    }
}

/// The message of a line is read from the line alone: bytes behind the
/// line change nothing but what is left.
pub proof fn lemma_message_in_line(s: Seq<u8>, more: Seq<u8>)
    requires
        ends_line(s),
    ensures
        grammar::message(s + more) == followed_by(grammar::message(s), more),
{
    lemma_prefix_in_line(s, more);
    let s1 = grammar::behind_prefix(s);
    lemma_command_in_line(s1, more);
    if let Some((verb, s2)) = grammar::command(s1) {
        lemma_params_in_line(s2, more);
        let s3 = grammar::params(s2).1;
        assert((s3 + more)[0] == s3[0]);
        if grammar::starts_with(s3, CR) {
            lemma_byte_in_line(s3, more);
            let s4 = s3.skip(1);
            assert((s4 + more)[0] == s4[0]);
            assert((s3 + more).skip(2) =~= s3.skip(2) + more);
        }
    }
}

/// What the parser makes of the pending bytes of a stream, as what is
/// handed out next and the stream behind it.
pub open spec fn parsed_next(stream: StreamView) -> (
    StreamView,
    Result<MessageView, ReadErrorView>,
) {
    match parse_result(stream.pending) {
        Ok((found, rest)) => (StreamView { pending: rest, closed: stream.closed }, Ok(found)),
        Err(_) => (
            stream.behind_first_line(),
            Err(ReadErrorView::InvalidData(stream.first_line())),
        ),
    }
}

/// Where a line is pending, the stream hands out what the parser reads from
/// all the pending bytes, and leaves what the parser leaves; where the
/// parser refuses them, the stream gives up the first line and no more.
pub proof fn lemma_next_is_what_the_parser_reads(stream: StreamView)
    requires
        stream.has_line(),
    ensures
        stream.next() == parsed_next(stream),
{
    let line = stream.first_line();
    let behind = stream.behind_first_line().pending;
    lemma_line_break_bounds(stream.pending);
    assert(stream.pending =~= line + behind);
    lemma_message_in_line(line, behind);
    crate::irc_stream::lemma_line_is_read_whole(stream);
    if let Some((found, rest)) = grammar::message(line) {
        assert(rest + behind =~= behind);
    }
}

} // verus!
