//! The grammar of a line, as functions from the bytes at hand to what is
//! read from their head and the bytes that are left behind it.
//!
//! ```text
//! line      = [":" prefix " "] command *(" " parameter) CR LF
//! prefix    = nickname "!" username "@" host / nickname "@" host
//!           / nickname / host
//! command   = 1*letter / 1*3digit
//! parameter = ":" *trailing-byte / 1*middle-byte
//! ```
//!
//! Alternatives are tried in the order written, and every run of bytes is
//! the longest there is.

use vstd::prelude::*;
use vstd::utf8::*;
use crate::charset::{lemma_run_bounds, run, ByteClass, AT, BANG, COLON, CR, LF, SPACE};
use crate::command::CommandView;
use crate::message::{MessageView, PrefixView, UserInfoView};
use crate::text::text_of;

verus! {

/// Whether `s` starts with the byte `b`.
pub open spec fn starts_with(s: Seq<u8>, b: u8) -> bool {
    s.len() > 0 && s[0] == b
}

/// The longest run of `class` at the head of `s`, as text. There is none
/// where the run is empty or is not well-formed UTF-8.
pub open spec fn token(s: Seq<u8>, class: ByteClass) -> Option<(Seq<char>, Seq<u8>)> {
    let n = run(s, class) as int;
    if n > 0 && valid_utf8(s.take(n)) {
        Some((decode_utf8(s.take(n)), s.skip(n)))
    } else {
        None
    }
}

/// A nickname: one or more nickname bytes.
pub open spec fn nickname(s: Seq<u8>) -> Option<(Seq<char>, Seq<u8>)> {
    token(s, ByteClass::Nickname)
}

/// A user name: one or more user name bytes that are well-formed UTF-8.
pub open spec fn username(s: Seq<u8>) -> Option<(Seq<char>, Seq<u8>)> {
    token(s, ByteClass::Username)
}

/// A host: one or more host bytes.
pub open spec fn host(s: Seq<u8>) -> Option<(Seq<char>, Seq<u8>)> {
    token(s, ByteClass::Host)
}

/// `nickname "!" username "@" host`
pub open spec fn nick_user_host(s: Seq<u8>) -> Option<(UserInfoView, Seq<u8>)> {
    match nickname(s) {
        Some((nick, s1)) => if starts_with(s1, BANG) {
            match username(s1.skip(1)) {
                Some((user, s2)) => if starts_with(s2, AT) {
                    match host(s2.skip(1)) {
                        Some((host, s3)) => Some(
                            (UserInfoView::NickUserHost(nick, user, host), s3),
                        ),
                        None => None,
                    }
                } else {
                    None
                },
                None => None,
            }
        } else {
            None
        },
        None => None,
    }
}

/// `nickname "@" host`
pub open spec fn nick_host(s: Seq<u8>) -> Option<(UserInfoView, Seq<u8>)> {
    match nickname(s) {
        Some((nick, s1)) => if starts_with(s1, AT) {
            match host(s1.skip(1)) {
                Some((host, s2)) => Some((UserInfoView::NickHost(nick, host), s2)),
                None => None,
            }
        } else {
            None
        },
        None => None,
    }
}

/// `nickname`
pub open spec fn nick_only(s: Seq<u8>) -> Option<(UserInfoView, Seq<u8>)> {
    match nickname(s) {
        Some((nick, s1)) => Some((UserInfoView::Nick(nick), s1)),
        None => None,
    }
}

/// The origin of a user: the full form, else the form without a user name,
/// else the nickname alone.
pub open spec fn user_info(s: Seq<u8>) -> Option<(UserInfoView, Seq<u8>)> {
    if nick_user_host(s) is Some {
        nick_user_host(s)
    } else if nick_host(s) is Some {
        nick_host(s)
    } else {
        nick_only(s)
    }
}

/// A user's origin and the space behind it.
pub open spec fn user_prefix(s: Seq<u8>) -> Option<(PrefixView, Seq<u8>)> {
    match user_info(s) {
        Some((user, s1)) => if starts_with(s1, SPACE) {
            Some((PrefixView::User(user), s1.skip(1)))
        } else {
            None
        },
        None => None,
    }
}

/// A host and the space behind it.
pub open spec fn server_prefix(s: Seq<u8>) -> Option<(PrefixView, Seq<u8>)> {
    match host(s) {
        Some((host, s1)) => if starts_with(s1, SPACE) {
            Some((PrefixView::Server(host), s1.skip(1)))
        } else {
            None
        },
        None => None,
    }
}

/// A colon, then a user's origin or else a server's, and one space. What
/// can be read as a nickname is a nickname, also where it could be a host.
pub open spec fn prefix(s: Seq<u8>) -> Option<(PrefixView, Seq<u8>)> {
    if starts_with(s, COLON) {
        if user_prefix(s.skip(1)) is Some {
            user_prefix(s.skip(1))
        } else {
            server_prefix(s.skip(1))
        }
    } else {
        None
    }
}

/// The number that a string of decimal digits denotes.
pub open spec fn digits_value(digits: Seq<u8>) -> nat
    decreases digits.len(),
{
    if digits.len() == 0 {
        0
    } else {
        digits_value(digits.drop_last()) * 10 + (digits.last() - 0x30) as nat
    }
}

/// The longest run of digits at the head of `s`, as a number; none where
/// the run is empty or longer than three.
pub open spec fn numeric_command(s: Seq<u8>) -> Option<(CommandView, Seq<u8>)> {
    let n = run(s, ByteClass::Digit) as int;
    if 1 <= n <= 3 {
        Some((CommandView::Number(digits_value(s.take(n)) as u16), s.skip(n)))
    } else {
        None
    }
}

/// The longest run of letters at the head of `s`; none where it is empty.
pub open spec fn word_command(s: Seq<u8>) -> Option<(CommandView, Seq<u8>)> {
    match token(s, ByteClass::Letter) {
        Some((word, s1)) => Some((CommandView::Word(word), s1)),
        None => None,
    }
}

/// A word, or else a number.
pub open spec fn command(s: Seq<u8>) -> Option<(CommandView, Seq<u8>)> {
    if word_command(s) is Some {
        word_command(s)
    } else {
        numeric_command(s)
    }
}

/// A middle parameter: the longest run of bytes other than NUL, CR, LF and
/// space; none where it is empty.
pub open spec fn param(s: Seq<u8>) -> Option<(Seq<char>, Seq<u8>)> {
    let n = run(s, ByteClass::Middle) as int;
    if n > 0 {
        Some((text_of(s.take(n)), s.skip(n)))
    } else {
        None
    }
}

/// Everything up to the end of the line: the longest run of bytes other
/// than NUL, CR and LF, which may be empty.
pub open spec fn trailing(s: Seq<u8>) -> (Seq<char>, Seq<u8>) {
    let n = run(s, ByteClass::Trailing) as int;
    (text_of(s.take(n)), s.skip(n))
}

/// A trailing parameter: a colon and everything up to the end of the line.
pub open spec fn final_param(s: Seq<u8>) -> Option<(Seq<char>, Seq<u8>)> {
    if starts_with(s, COLON) {
        Some(trailing(s.skip(1)))
    } else {
        None
    }
}

/// The parameters at the head of `s`, each behind one space. A parameter
/// that starts with a colon is a trailing parameter, and nothing follows
/// it; any other is a middle parameter.
pub open spec fn params(s: Seq<u8>) -> (Seq<Seq<char>>, Seq<u8>)
    decreases s.len(),
    via params_decreases
{
    if starts_with(s, SPACE) {
        match final_param(s.skip(1)) {
            Some((last, s1)) => (seq![last], s1),
            None => match param(s.skip(1)) {
                Some((middle, s1)) => {
                    let (others, s2) = params(s1);
                    (seq![middle] + others, s2)
                },
                None => (Seq::empty(), s),
            },
        }
    } else {
        (Seq::empty(), s)
    }
}

#[via_fn]
proof fn params_decreases(s: Seq<u8>) {
    if starts_with(s, SPACE) {
        lemma_run_bounds(s.skip(1), ByteClass::Middle);
    }
}

/// The bytes of each of the parameters at the head of `s`, as they stand
/// in `s`.
pub open spec fn param_bytes(s: Seq<u8>) -> Seq<Seq<u8>>
    decreases s.len(),
    via param_bytes_decreases
{
    if starts_with(s, SPACE) {
        let t = s.skip(1);
        if starts_with(t, COLON) {
            seq![t.skip(1).take(run(t.skip(1), ByteClass::Trailing) as int)]
        } else {
            let n = run(t, ByteClass::Middle) as int;
            if n > 0 {
                seq![t.take(n)] + param_bytes(t.skip(n))
            } else {
                Seq::empty()
            }
        }
    } else {
        Seq::empty()
    }
}

#[via_fn]
proof fn param_bytes_decreases(s: Seq<u8>) {
    if starts_with(s, SPACE) {
        lemma_run_bounds(s.skip(1), ByteClass::Middle);
    }
}

/// The parameters are the texts of their bytes.
pub proof fn lemma_params_are_texts(s: Seq<u8>)
    ensures
        params(s).0.len() == param_bytes(s).len(),
        forall|i: int|
            0 <= i < param_bytes(s).len() ==> #[trigger] params(s).0[i] == text_of(
                param_bytes(s)[i],
            ),
    decreases s.len(),
{
    if starts_with(s, SPACE) {
        let t = s.skip(1);
        if !starts_with(t, COLON) {
            lemma_run_bounds(t, ByteClass::Middle);
            let n = run(t, ByteClass::Middle) as int;
            if n > 0 {
                lemma_params_are_texts(t.skip(n));
                assert forall|i: int| 0 <= i < param_bytes(s).len() implies #[trigger] params(
                    s,
                ).0[i] == text_of(param_bytes(s)[i]) by {
                    if i > 0 {
                        assert(params(s).0[i] == params(t.skip(n)).0[i - 1]);
                        assert(param_bytes(s)[i] == param_bytes(t.skip(n))[i - 1]);
                    }
                }
            }
        }
    }
}

/// The bytes of each of the arguments of a line, as they stand in the line.
pub open spec fn argument_bytes(s: Seq<u8>) -> Seq<Seq<u8>> {
    match command(behind_prefix(s)) {
        Some((_, s2)) => param_bytes(s2),
        None => Seq::empty(),
    }
}

/// A whole line: the prefix if there is one, the command, the parameters,
/// and CR LF.
pub open spec fn message(s: Seq<u8>) -> Option<(MessageView, Seq<u8>)> {
    let (origin, s1) = match prefix(s) {
        Some(found) => found,
        None => (PrefixView::Absent, s),
    };
    match command(s1) {
        Some((verb, s2)) => {
            let (arguments, s3) = params(s2);
            if starts_with(s3, CR) && starts_with(s3.skip(1), LF) {
                Some(
                    (
                        MessageView { prefix: origin, command: verb, arguments: arguments },
                        s3.skip(2),
                    ),
                )
            } else {
                None
            }
        },
        None => None,
    }
}

/// What is left of a line behind its prefix: the whole line where it has
/// none.
pub open spec fn behind_prefix(s: Seq<u8>) -> Seq<u8> {
    match prefix(s) {
        Some((_, s1)) => s1,
        None => s,
    }
}

/// A line does not parse where its command is a run of four or more
/// digits, or letters and digits mixed: behind the command stands a space
/// or the end of the line, or the line is refused.
pub proof fn lemma_malformed_command_is_refused(s: Seq<u8>)
    ensures
        run(behind_prefix(s), ByteClass::Letter) == 0 && run(behind_prefix(s), ByteClass::Digit)
            >= 4 ==> message(s) is None,
        command(behind_prefix(s)) matches Some((_, s2)) ==> {
            &&& s2.len() > 0 && ByteClass::Digit.has(s2[0]) ==> message(s) is None
            &&& s2.len() > 0 && ByteClass::Letter.has(s2[0]) ==> message(s) is None
            &&& message(s) is Some ==> starts_with(s2, SPACE) || starts_with(s2, CR)
        },
{
}

/// Whether `rest` is what is left of `s` behind some of its bytes, none of
/// which is CR or LF.
pub open spec fn is_rest_of(rest: Seq<u8>, s: Seq<u8>) -> bool {
    &&& rest.len() <= s.len()
    &&& rest == s.skip(s.len() - rest.len())
    &&& forall|i: int| 0 <= i < s.len() - rest.len() ==> #[trigger] s[i] != CR && s[i] != LF
}

/// An input is what is left of itself.
pub proof fn lemma_rest_of_itself(s: Seq<u8>)
    ensures
        is_rest_of(s, s),
{
    assert(s.skip(0) =~= s);
}

/// What stands behind a byte that is neither CR nor LF.
pub proof fn lemma_rest_behind_byte(s: Seq<u8>)
    requires
        s.len() > 0,
        s[0] != CR,
        s[0] != LF,
    ensures
        is_rest_of(s.skip(1), s),
{
}

/// What stands behind a run of a class: no class holds CR or LF.
pub proof fn lemma_rest_behind_run(s: Seq<u8>, class: ByteClass)
    ensures
        is_rest_of(s.skip(run(s, class) as int), s),
        s.skip(run(s, class) as int).len() == s.len() - run(s, class),
{
    lemma_run_bounds(s, class);
    let n = run(s, class) as int;
    assert forall|i: int| 0 <= i < n implies #[trigger] s[i] != CR && s[i] != LF by {
        assert(class.has(s.take(n)[i]));
    }
}

/// What is left of what is left of an input is left of the input.
pub proof fn lemma_rest_of_rest(a: Seq<u8>, b: Seq<u8>, c: Seq<u8>)
    requires
        is_rest_of(a, b),
        is_rest_of(b, c),
    ensures
        is_rest_of(a, c),
{
    let k = c.len() - b.len();
    assert(c.skip(k).skip(b.len() - a.len()) =~= c.skip(c.len() - a.len()));
    assert forall|i: int| 0 <= i < c.len() - a.len() implies #[trigger] c[i] != CR && c[i]
        != LF by {
        if i >= k {
            assert(c[i] == b[i - k]);
        }
    }
}

/// A token takes at least one byte from the head of the input, and neither
/// CR nor LF.
pub proof fn lemma_token_rest(s: Seq<u8>, class: ByteClass)
    ensures
        token(s, class) matches Some((_, rest)) ==> is_rest_of(rest, s) && rest.len() < s.len(),
{
    lemma_rest_behind_run(s, class);
}

/// A user's origin takes at least one byte from the head of the input, and
/// neither CR nor LF.
pub proof fn lemma_user_info_rest(s: Seq<u8>)
    ensures
        user_info(s) matches Some((_, rest)) ==> is_rest_of(rest, s) && rest.len() < s.len(),
{
    lemma_token_rest(s, ByteClass::Nickname);
    if let Some((nick, s1)) = nickname(s) {
        if starts_with(s1, BANG) || starts_with(s1, AT) {
            lemma_rest_behind_byte(s1);
            lemma_rest_of_rest(s1.skip(1), s1, s);
            lemma_token_rest(s1.skip(1), ByteClass::Username);
            lemma_token_rest(s1.skip(1), ByteClass::Host);
            if let Some((host, s2)) = host(s1.skip(1)) {
                lemma_rest_of_rest(s2, s1.skip(1), s);
            }
            if let Some((user, s2)) = username(s1.skip(1)) {
                lemma_rest_of_rest(s2, s1.skip(1), s);
                if starts_with(s2, AT) {
                    lemma_rest_behind_byte(s2);
                    lemma_rest_of_rest(s2.skip(1), s2, s);
                    lemma_token_rest(s2.skip(1), ByteClass::Host);
                    if let Some((host, s3)) = host(s2.skip(1)) {
                        lemma_rest_of_rest(s3, s2.skip(1), s);
                    }
                }
            }
        }
    }
}

/// A prefix takes at least one byte from the head of the input, and neither
/// CR nor LF.
pub proof fn lemma_prefix_rest(s: Seq<u8>)
    ensures
        prefix(s) matches Some((_, rest)) ==> is_rest_of(rest, s) && rest.len() < s.len(),
{
    if starts_with(s, COLON) {
        let t = s.skip(1);
        lemma_rest_behind_byte(s);
        lemma_user_info_rest(t);
        lemma_token_rest(t, ByteClass::Host);
        if let Some((user, s1)) = user_info(t) {
            if starts_with(s1, SPACE) {
                lemma_rest_behind_byte(s1);
                lemma_rest_of_rest(s1.skip(1), s1, t);
                lemma_rest_of_rest(s1.skip(1), t, s);
            }
        }
        if let Some((host, s1)) = host(t) {
            if starts_with(s1, SPACE) {
                lemma_rest_behind_byte(s1);
                lemma_rest_of_rest(s1.skip(1), s1, t);
                lemma_rest_of_rest(s1.skip(1), t, s);
            }
        }
    }
}

/// A command takes at least one byte from the head of the input, and
/// neither CR nor LF.
pub proof fn lemma_command_rest(s: Seq<u8>)
    ensures
        command(s) matches Some((_, rest)) ==> is_rest_of(rest, s) && rest.len() < s.len(),
{
    lemma_token_rest(s, ByteClass::Letter);
    lemma_rest_behind_run(s, ByteClass::Digit);
}

/// The parameters are taken from the head of the input, and hold neither CR
/// nor LF.
pub proof fn lemma_params_rest(s: Seq<u8>)
    ensures
        is_rest_of(params(s).1, s),
    decreases s.len(),
{
    lemma_rest_of_itself(s);
    if starts_with(s, SPACE) {
        let t = s.skip(1);
        lemma_rest_behind_byte(s);
        if starts_with(t, COLON) {
            let u = t.skip(1);
            lemma_rest_behind_byte(t);
            lemma_rest_behind_run(u, ByteClass::Trailing);
            lemma_rest_of_rest(u, t, s);
            lemma_rest_of_rest(params(s).1, u, s);
        } else {
            lemma_rest_behind_run(t, ByteClass::Middle);
            let n = run(t, ByteClass::Middle) as int;
            if n > 0 {
                let s1 = t.skip(n);
                lemma_rest_of_rest(s1, t, s);
                lemma_params_rest(s1);
                lemma_rest_of_rest(params(s1).1, s1, s);
            }
        }
    }
}

/// A line is taken from the head of the input. It holds CR and LF as its
/// last two bytes, and nowhere else.
pub proof fn lemma_message_rest(s: Seq<u8>)
    ensures
        message(s) matches Some((_, rest)) ==> {
            &&& rest.len() + 3 <= s.len()
            &&& rest == s.skip(s.len() - rest.len())
            &&& s[s.len() - rest.len() - 2] == CR
            &&& s[s.len() - rest.len() - 1] == LF
            &&& forall|i: int|
                0 <= i < s.len() - rest.len() - 2 ==> #[trigger] s[i] != CR && s[i] != LF
        },
{
    if let Some((found, rest)) = message(s) {
        lemma_prefix_rest(s);
        let s1 = behind_prefix(s);
        lemma_rest_of_itself(s);
        lemma_command_rest(s1);
        let s2 = match command(s1) {
            Some((_, s2)) => s2,
            None => s1,
        };
        lemma_rest_of_rest(s2, s1, s);
        lemma_params_rest(s2);
        let s3 = params(s2).1;
        lemma_rest_of_rest(s3, s2, s);
        let k = s.len() - s3.len();
        assert(s3[0] == s[k]);
        assert(s3.skip(1)[0] == s3[1]);
        assert(s3[1] == s[k + 1]);
        assert(rest =~= s.skip(k + 2));
    }
}

} // verus!
