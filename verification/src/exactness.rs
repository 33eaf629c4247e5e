//! Only what the wire can carry is read back: a message whose line parses
//! to the message itself is one that the wire can carry.

use vstd::prelude::*;
use vstd::utf8::*;
use crate::charset::{all_of, lemma_run_bounds, lemma_run_is, run, ByteClass, COLON, CR, LF, SPACE};
use crate::grammar;
use crate::irc_stream::wire_line;
use crate::message::{
    leading_arguments_text, lemma_only_the_last_argument_is_marked, MessageView,
};
use crate::parser::{lemma_digits_value_bound, lemma_letter_text};
use crate::roundtrip::lemma_encode_one;
use crate::wire::{argument_is_wire_safe, spelled_in};
use crate::text::{lemma_ascii_byte_in_encoding, lemma_decode_ascii, lemma_encode_concat};

verus! {

/// The text of a token is spelled in the class of the token, by the bytes
/// of the run.
pub proof fn lemma_token_is_spelled(s: Seq<u8>, class: ByteClass)
    ensures
        grammar::token(s, class) matches Some((text, _)) ==> spelled_in(text, class)
            && encode_utf8(text) == s.take(run(s, class) as int),
{
    lemma_run_bounds(s, class);
    if grammar::token(s, class) is Some {
        decode_utf8_encode_utf8(s.take(run(s, class) as int));
    }
}

/// Whatever is read as the origin of a user is one that the wire can carry.
pub proof fn lemma_user_info_is_wire_safe(s: Seq<u8>)
    ensures
        grammar::user_info(s) matches Some((user, _)) ==> user.is_wire_safe(),
{
    lemma_token_is_spelled(s, ByteClass::Nickname);
    if let Some((nick, s1)) = grammar::nickname(s) {
        lemma_token_is_spelled(s1.skip(1), ByteClass::Username);
        lemma_token_is_spelled(s1.skip(1), ByteClass::Host);
        if let Some((user, s2)) = grammar::username(s1.skip(1)) {
            lemma_token_is_spelled(s2.skip(1), ByteClass::Host);
        }
    }
}

/// Whatever is read as a prefix is one that the wire can carry.
pub proof fn lemma_prefix_is_wire_safe(s: Seq<u8>)
    ensures
        grammar::prefix(s) matches Some((origin, _)) ==> origin.is_wire_safe(),
{
    if grammar::starts_with(s, COLON) {
        let t = s.skip(1);
        lemma_user_info_is_wire_safe(t);
        if grammar::user_prefix(t) is None {
            lemma_token_is_spelled(t, ByteClass::Host);
            if let Some((host, s1)) = grammar::host(t) {
                let n = run(t, ByteClass::Host) as int;
                if grammar::starts_with(s1, SPACE) && all_of(
                    encode_utf8(host),
                    ByteClass::Nickname,
                ) {
                    lemma_run_bounds(t, ByteClass::Host);
                    assert forall|i: int| 0 <= i < n implies ByteClass::Nickname.has(
                        #[trigger] t[i],
                    ) by {
                        assert(t[i] == t.take(n)[i]);
                    }
                    assert(t[n] == s1[0]);
                    lemma_run_is(t, ByteClass::Nickname, n);
                    assert(grammar::nick_only(t) is Some);
                    assert(grammar::user_prefix(t) is Some);
                }
            }
        }
    }
}

/// Whatever is read as a command is valid.
pub proof fn lemma_command_is_valid(s: Seq<u8>)
    ensures
        grammar::command(s) matches Some((verb, _)) ==> verb.is_valid(),
{
    lemma_run_bounds(s, ByteClass::Letter);
    lemma_run_bounds(s, ByteClass::Digit);
    if grammar::word_command(s) is Some {
        lemma_letter_text(s.take(run(s, ByteClass::Letter) as int));
    } else if grammar::numeric_command(s) is Some {
        lemma_digits_value_bound(s.take(run(s, ByteClass::Digit) as int));
    }
}

/// Well-formed UTF-8 that is cut in front of an ASCII byte is well-formed
/// on both sides of the cut.
pub proof fn lemma_cut_at_ascii(s: Seq<u8>, k: int)
    requires
        valid_utf8(s),
        0 <= k <= s.len(),
        k < s.len() ==> s[k] < 0x80,
    ensures
        valid_utf8(s.take(k)),
        valid_utf8(s.skip(k)),
{
    if k < s.len() {
        is_char_boundary_iff_is_leading_byte(s, k);
    } else {
        is_char_boundary_start_end_of_seq(s);
    }
    valid_utf8_split(s, k);
}

/// Well-formed UTF-8 behind an ASCII byte is well-formed.
pub proof fn lemma_behind_ascii(s: Seq<u8>)
    requires
        valid_utf8(s),
        s.len() > 0,
        s[0] < 0x80,
    ensures
        valid_utf8(s.skip(1)),
{
    assert(pop_first_scalar(s) == s.skip(1));
}

/// Well-formed UTF-8 behind a well-formed head is well-formed.
pub proof fn lemma_behind_valid(s: Seq<u8>, k: int)
    requires
        valid_utf8(s),
        0 <= k <= s.len(),
        valid_utf8(s.take(k)),
    ensures
        valid_utf8(s.skip(k)),
{
    if !valid_utf8(s.skip(k)) {
        partial_valid_partial_invalid_utf8(s, k);
    }
}

/// What a token leaves of well-formed UTF-8 is well-formed.
pub proof fn lemma_token_leaves_valid(s: Seq<u8>, class: ByteClass)
    requires
        valid_utf8(s),
    ensures
        grammar::token(s, class) matches Some((_, rest)) ==> valid_utf8(rest),
{
    lemma_run_bounds(s, class);
    if grammar::token(s, class) is Some {
        lemma_behind_valid(s, run(s, class) as int);
    }
}

/// What a prefix leaves of well-formed UTF-8 is well-formed.
pub proof fn lemma_prefix_leaves_valid(s: Seq<u8>)
    requires
        valid_utf8(s),
    ensures
        valid_utf8(grammar::behind_prefix(s)),
{
    if grammar::starts_with(s, COLON) {
        lemma_behind_ascii(s);
        let t = s.skip(1);
        lemma_token_leaves_valid(t, ByteClass::Nickname);
        lemma_token_leaves_valid(t, ByteClass::Host);
        if let Some((host, s1)) = grammar::host(t) {
            if grammar::starts_with(s1, SPACE) {
                lemma_behind_ascii(s1);
            }
        }
        if let Some((nick, s1)) = grammar::nickname(t) {
            if s1.len() > 0 && s1[0] < 0x80 {
                lemma_behind_ascii(s1);
                let u = s1.skip(1);
                lemma_token_leaves_valid(u, ByteClass::Username);
                lemma_token_leaves_valid(u, ByteClass::Host);
                if let Some((host, s2)) = grammar::host(u) {
                    if grammar::starts_with(s2, SPACE) {
                        lemma_behind_ascii(s2);
                    }
                }
                if let Some((user, s2)) = grammar::username(u) {
                    if s2.len() > 0 && s2[0] < 0x80 {
                        lemma_behind_ascii(s2);
                        lemma_token_leaves_valid(s2.skip(1), ByteClass::Host);
                        if let Some((host, s3)) = grammar::host(s2.skip(1)) {
                            if grammar::starts_with(s3, SPACE) {
                                lemma_behind_ascii(s3);
                            }
                        }
                    }
                }
            }
        }
    }
}

/// What a command leaves of well-formed UTF-8 is well-formed.
pub proof fn lemma_command_leaves_valid(s: Seq<u8>)
    requires
        valid_utf8(s),
    ensures
        grammar::command(s) matches Some((_, rest)) ==> valid_utf8(rest),
{
    lemma_token_leaves_valid(s, ByteClass::Letter);
    lemma_run_bounds(s, ByteClass::Digit);
    let n = run(s, ByteClass::Digit) as int;
    assert forall|i: int| 0 <= i < n implies #[trigger] s.take(n)[i] < 0x80 by {
        assert(ByteClass::Digit.has(s.take(n)[i]));
    }
    lemma_decode_ascii(s.take(n));
    lemma_behind_valid(s, n);
}

/// Whether the last of the parameters at the head of `s` is read in the
/// trailing form.
pub open spec fn ends_in_trailing(s: Seq<u8>) -> bool
    decreases s.len(),
    via ends_in_trailing_decreases
{
    if grammar::starts_with(s, SPACE) {
        let t = s.skip(1);
        if grammar::starts_with(t, COLON) {
            true
        } else {
            let n = run(t, ByteClass::Middle) as int;
            n > 0 && ends_in_trailing(t.skip(n))
        }
    } else {
        false
    }
}

#[via_fn]
proof fn ends_in_trailing_decreases(s: Seq<u8>) {
    if grammar::starts_with(s, SPACE) {
        lemma_run_bounds(s.skip(1), ByteClass::Middle);
    }
}

/// Whether `bytes` can be a middle parameter: one or more middle bytes, the
/// first of which is no colon.
pub open spec fn is_middle(bytes: Seq<u8>) -> bool {
    bytes.len() > 0 && all_of(bytes, ByteClass::Middle) && bytes[0] != COLON
}

/// The bytes of the parameters at the head of well-formed UTF-8: each is
/// well-formed; each is a middle parameter, but for a last one in the
/// trailing form, which is made of trailing bytes and stands behind a
/// colon, right in front of what the parameters leave.
pub proof fn lemma_param_bytes_shape(s: Seq<u8>)
    requires
        valid_utf8(s),
    ensures
        forall|i: int|
            0 <= i < grammar::param_bytes(s).len() ==> valid_utf8(
                #[trigger] grammar::param_bytes(s)[i],
            ),
        forall|i: int|
            0 <= i < grammar::param_bytes(s).len() && !(ends_in_trailing(s) && i
                == grammar::param_bytes(s).len() - 1) ==> is_middle(
                #[trigger] grammar::param_bytes(s)[i],
            ),
        ends_in_trailing(s) ==> {
            let last = grammar::param_bytes(s).last();
            let rest = grammar::params(s).1;
            &&& grammar::param_bytes(s).len() > 0
            &&& all_of(last, ByteClass::Trailing)
            &&& rest.len() + last.len() + 2 <= s.len()
            &&& s[s.len() - rest.len() - last.len() - 1] == COLON
        },
    decreases s.len(),
{
    if grammar::starts_with(s, SPACE) {
        lemma_behind_ascii(s);
        let t = s.skip(1);
        if grammar::starts_with(t, COLON) {
            lemma_behind_ascii(t);
            let u = t.skip(1);
            let n = run(u, ByteClass::Trailing) as int;
            lemma_run_bounds(u, ByteClass::Trailing);
            if n < u.len() {
                assert(!ByteClass::Trailing.has(u[n]));
            }
            lemma_cut_at_ascii(u, n);
            assert(s[1] == t[0]);
        } else {
            let n = run(t, ByteClass::Middle) as int;
            lemma_run_bounds(t, ByteClass::Middle);
            if n > 0 {
                if n < t.len() {
                    assert(!ByteClass::Middle.has(t[n]));
                }
                lemma_cut_at_ascii(t, n);
                let s1 = t.skip(n);
                lemma_param_bytes_shape(s1);
                let bytes = grammar::param_bytes(s);
                let others = grammar::param_bytes(s1);
                assert(bytes =~= seq![t.take(n)] + others);
                assert(t.take(n)[0] == t[0]);
                assert forall|i: int| 0 <= i < bytes.len() implies valid_utf8(
                    #[trigger] bytes[i],
                ) by {
                    if i > 0 {
                        assert(bytes[i] == others[i - 1]);
                    }
                }
                assert forall|i: int|
                    0 <= i < bytes.len() && !(ends_in_trailing(s) && i == bytes.len()
                        - 1) implies is_middle(#[trigger] bytes[i]) by {
                    if i > 0 {
                        assert(bytes[i] == others[i - 1]);
                    }
                }
                if ends_in_trailing(s) {
                    let last = others.last();
                    let rest = grammar::params(s1).1;
                    assert(bytes.last() == last);
                    assert(s1[s1.len() - rest.len() - last.len() - 1] == s[s.len() - rest.len()
                        - last.len() - 1]);
                }
            }
        }
    }
}

/// Only what the wire can carry is read back: where the line of a message
/// parses to the message and leaves nothing, the wire can carry the
/// message.
pub proof fn lemma_what_reads_back_is_wire_safe(message: MessageView)
    requires
        grammar::message(wire_line(message)) == Some((message, Seq::<u8>::empty())),
    ensures
        message.is_wire_safe(),
{
    let line = wire_line(message);
    let arguments = message.arguments;
    assert(valid_utf8(line)) by {
        encode_utf8_valid_utf8(message.wire_text());
        assert(seq![CR, LF][0] < 0x80 && seq![CR, LF][1] < 0x80);
        lemma_decode_ascii(seq![CR, LF]);
        valid_utf8_concat(encode_utf8(message.wire_text()), seq![CR, LF]);
    }
    lemma_prefix_is_wire_safe(line);
    lemma_prefix_leaves_valid(line);
    grammar::lemma_prefix_rest(line);
    grammar::lemma_rest_of_itself(line);
    let s1 = grammar::behind_prefix(line);
    lemma_command_is_valid(s1);
    lemma_command_leaves_valid(s1);
    grammar::lemma_command_rest(s1);
    let s2 = match grammar::command(s1) {
        Some((_, s2)) => s2,
        None => s1,
    };
    grammar::lemma_rest_of_rest(s2, s1, line);
    lemma_param_bytes_shape(s2);
    grammar::lemma_params_are_texts(s2);
    let bytes = grammar::param_bytes(s2);
    let s3 = grammar::params(s2).1;
    assert(s3.len() == 2) by {
        assert(s3.skip(2).len() == 0);
    }
    assert forall|i: int| 0 <= i < arguments.len() implies argument_is_wire_safe(
        arguments,
        i,
    ) by {
        assert(arguments[i] == grammar::params(s2).0[i]);
        assert(valid_utf8(bytes[i]));
        decode_utf8_encode_utf8(bytes[i]);
        assert(encode_utf8(arguments[i]) == bytes[i]);
        lemma_ascii_byte_in_encoding(arguments[i], SPACE);
        if !(ends_in_trailing(s2) && i == arguments.len() - 1) {
            assert(is_middle(bytes[i]));
            if arguments[i].contains(' ') {
                let k = choose|k: int| 0 <= k < bytes[i].len() && bytes[i][k] == SPACE;
                assert(ByteClass::Middle.has(bytes[i][k]));
            }
        } else if !arguments[i].contains(' ') {
            let last = arguments[i];
            let n = bytes[i].len() as int;
            assert(bytes[i] == bytes.last());
            assert(s2[s2.len() - n - 3] == COLON);
            assert(s2[s2.len() - n - 3] == line[line.len() - n - 3]);
            let front = message.prefix.wire_text() + message.command.wire_text()
                + leading_arguments_text(arguments, 0);
            lemma_only_the_last_argument_is_marked(arguments, 0);
            assert(arguments.last() == last);
            assert(message.wire_text() =~= front + (seq![' '] + last));
            lemma_encode_concat(front, seq![' '] + last);
            lemma_encode_concat(seq![' '], last);
            lemma_encode_one(SPACE);
            assert(line =~= encode_utf8(front) + seq![SPACE] + encode_utf8(last) + seq![CR, LF]);
            assert(line[line.len() - n - 3] == SPACE);
        }
    }
}

/// The wire can carry a message if and only if the line of the message
/// parses to the message and leaves nothing.
pub proof fn lemma_wire_safe_is_what_reads_back(message: MessageView)
    ensures
        message.is_wire_safe() <==> grammar::message(wire_line(message)) == Some(
            (message, Seq::<u8>::empty()),
        ),
{
    if message.is_wire_safe() {
        crate::roundtrip::lemma_line_reads_back(message, Seq::empty());
        assert(wire_line(message) + Seq::<u8>::empty() =~= wire_line(message));
    }
    if grammar::message(wire_line(message)) == Some((message, Seq::<u8>::empty())) {
        lemma_what_reads_back_is_wire_safe(message);
    }
}

} // verus!
