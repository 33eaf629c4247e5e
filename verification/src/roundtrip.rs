//! What is written can be read: the line of a message parses back to the
//! message, for every message that the wire can carry.

use vstd::prelude::*;
use vstd::utf8::*;
use crate::charset::{
    all_of, lemma_run_bounds, lemma_run_is, run, ByteClass, AT, BANG, COLON, CR, LF, SPACE,
};
use crate::command::{
    decimal_text, digit_char, lemma_letters_encode, padded_decimal_text, CommandView,
};
use crate::grammar;
use crate::irc_stream::{
    lemma_line_break_bounds, lemma_line_break_is, line_break, wire_line, ReadErrorView, StreamView,
};
use crate::message::{
    argument_text, arguments_text, is_trailing, MessageView, PrefixView, UserInfoView,
};
use crate::wire::{argument_is_wire_safe, spelled_in};
use crate::parser::parse_result;
use crate::text::lemma_encode_concat;

verus! {

/// A run covers the front of a concatenation where the front is of the
/// class and the back does not start with a byte of it.
pub proof fn lemma_run_of_concat(front: Seq<u8>, back: Seq<u8>, class: ByteClass)
    requires
        all_of(front, class),
        back.len() > 0 ==> !class.has(back[0]),
    ensures
        run(front + back, class) == front.len(),
        (front + back).take(front.len() as int) == front,
        (front + back).skip(front.len() as int) == back,
{
    let s = front + back;
    assert forall|i: int| 0 <= i < front.len() implies class.has(#[trigger] s[i]) by {
        assert(s[i] == front[i]);
    }
    if front.len() < s.len() {
        assert(s[front.len() as int] == back[0]);
    }
    lemma_run_is(s, class, front.len() as int);
    assert(s.take(front.len() as int) =~= front);
    assert(s.skip(front.len() as int) =~= back);
}

/// The token at the head of the encoding of a text of the class is the text.
pub proof fn lemma_token_of_text(text: Seq<char>, back: Seq<u8>, class: ByteClass)
    requires
        spelled_in(text, class),
        back.len() > 0 ==> !class.has(back[0]),
    ensures
        grammar::token(encode_utf8(text) + back, class) == Some((text, back)),
{
    lemma_run_of_concat(encode_utf8(text), back, class);
    encode_utf8_valid_utf8(text);
    encode_utf8_decode_utf8(text);
}

/// The encoding of a single ASCII character is its byte.
pub proof fn lemma_encode_one(b: u8)
    requires
        b < 0x80,
    ensures
        encode_utf8(seq![b as char]) == seq![b],
{
    let text = seq![b as char];
    assert(is_ascii_chars(text));
    is_ascii_chars_encode_utf8(text);
    assert(encode_utf8(text) =~= seq![b]);
}

/// The origin of a user is read back from its text, where a space follows.
pub proof fn lemma_user_info_reads_back(user: UserInfoView, back: Seq<u8>)
    requires
        user.is_wire_safe(),
        grammar::starts_with(back, SPACE),
    ensures
        grammar::user_info(encode_utf8(user.wire_text()) + back) == Some((user, back)),
{
    lemma_encode_one(BANG);
    lemma_encode_one(AT);
    match user {
        UserInfoView::Nick(nick) => {
            lemma_token_of_text(nick, back, ByteClass::Nickname);
        },
        UserInfoView::NickHost(nick, host) => {
            let s2 = encode_utf8(host) + back;
            let s1 = seq![AT] + s2;
            lemma_encode_concat(nick + seq!['@'], host);
            lemma_encode_concat(nick, seq!['@']);
            assert(encode_utf8(user.wire_text()) + back =~= encode_utf8(nick) + s1);
            lemma_token_of_text(nick, s1, ByteClass::Nickname);
            assert(s1.skip(1) =~= s2);
            lemma_token_of_text(host, back, ByteClass::Host);
        },
        UserInfoView::NickUserHost(nick, name, host) => {
            let s4 = encode_utf8(host) + back;
            let s3 = seq![AT] + s4;
            let s2 = encode_utf8(name) + s3;
            let s1 = seq![BANG] + s2;
            lemma_encode_concat(nick + seq!['!'] + name + seq!['@'], host);
            lemma_encode_concat(nick + seq!['!'] + name, seq!['@']);
            lemma_encode_concat(nick + seq!['!'], name);
            lemma_encode_concat(nick, seq!['!']);
            assert(encode_utf8(user.wire_text()) + back =~= encode_utf8(nick) + s1);
            lemma_token_of_text(nick, s1, ByteClass::Nickname);
            assert(s1.skip(1) =~= s2);
            lemma_token_of_text(name, s3, ByteClass::Username);
            assert(s3.skip(1) =~= s4);
            lemma_token_of_text(host, back, ByteClass::Host);
        },
    }
}

/// A host that holds a byte that no nickname holds is not read as the
/// origin of a user.
pub proof fn lemma_server_is_no_user(host: Seq<char>, back: Seq<u8>)
    requires
        spelled_in(host, ByteClass::Host),
        !all_of(encode_utf8(host), ByteClass::Nickname),
        grammar::starts_with(back, SPACE),
    ensures
        grammar::user_prefix(encode_utf8(host) + back) is None,
{
    let bytes = encode_utf8(host);
    let s = bytes + back;
    let a = run(s, ByteClass::Nickname) as int;
    lemma_run_bounds(s, ByteClass::Nickname);
    if a >= bytes.len() {
        assert forall|i: int| 0 <= i < bytes.len() implies ByteClass::Nickname.has(
            #[trigger] bytes[i],
        ) by {
            assert(s.take(a)[i] == bytes[i]);
        }
    }
    if a > 0 {
        assert(s[a] == bytes[a]);
        assert(ByteClass::Host.has(bytes[a]));
        assert(s.skip(a)[0] == s[a]);
    }
}

/// A prefix is read back from its text.
pub proof fn lemma_prefix_reads_back(prefix: PrefixView, back: Seq<u8>)
    requires
        prefix.is_wire_safe(),
        !(prefix is Absent),
    ensures
        grammar::prefix(encode_utf8(prefix.wire_text()) + back) == Some((prefix, back)),
{
    lemma_encode_one(COLON);
    lemma_encode_one(SPACE);
    let s1 = seq![SPACE] + back;
    assert(s1.skip(1) =~= back);
    match prefix {
        PrefixView::Absent => {},
        PrefixView::Server(host) => {
            let t = encode_utf8(host) + s1;
            lemma_encode_concat(seq![':'] + host, seq![' ']);
            lemma_encode_concat(seq![':'], host);
            assert(encode_utf8(prefix.wire_text()) + back =~= seq![COLON] + t);
            assert((seq![COLON] + t).skip(1) =~= t);
            lemma_server_is_no_user(host, s1);
            lemma_token_of_text(host, s1, ByteClass::Host);
        },
        PrefixView::User(user) => {
            let t = encode_utf8(user.wire_text()) + s1;
            lemma_encode_concat(seq![':'] + user.wire_text(), seq![' ']);
            lemma_encode_concat(seq![':'], user.wire_text());
            assert(encode_utf8(prefix.wire_text()) + back =~= seq![COLON] + t);
            assert((seq![COLON] + t).skip(1) =~= t);
            lemma_user_info_reads_back(user, s1);
        },
    }
}

/// A bare token of nickname bytes in the place of the prefix is read as a
/// nickname, also where it could be the name of a host.
pub proof fn lemma_bare_token_is_a_nickname(token: Seq<char>, back: Seq<u8>)
    requires
        spelled_in(token, ByteClass::Nickname),
    ensures
        grammar::prefix(seq![COLON] + encode_utf8(token) + seq![SPACE] + back) == Some(
            (PrefixView::User(UserInfoView::Nick(token)), back),
        ),
{
    let prefix = PrefixView::User(UserInfoView::Nick(token));
    lemma_prefix_reads_back(prefix, back);
    lemma_encode_one(COLON);
    lemma_encode_one(SPACE);
    lemma_encode_concat(seq![':'] + token, seq![' ']);
    lemma_encode_concat(seq![':'], token);
    assert(encode_utf8(prefix.wire_text()) + back =~= seq![COLON] + encode_utf8(token) + seq![
        SPACE,
    ] + back);
}

/// The three digits of a number up to 999 denote the number.
pub proof fn lemma_three_digits(n: u16)
    requires
        n <= 999,
    ensures
        encode_utf8(padded_decimal_text(n as nat)).len() == 3,
        all_of(encode_utf8(padded_decimal_text(n as nat)), ByteClass::Digit),
        grammar::digits_value(encode_utf8(padded_decimal_text(n as nat))) == n,
{
    reveal_with_fuel(decimal_text, 3);
    reveal_with_fuel(grammar::digits_value, 4);
    let text = padded_decimal_text(n as nat);
    let digits = seq![
        digit_char(n as int / 100),
        digit_char(n as int / 10 % 10),
        digit_char(n as int % 10),
    ];
    assert(text =~= digits);
    assert(is_ascii_chars(text));
    is_ascii_chars_encode_utf8(text);
    let bytes = encode_utf8(text);
    assert(bytes[0] == 0x30 + n as int / 100);
    assert(bytes[1] == 0x30 + n as int / 10 % 10);
    assert(bytes[2] == 0x30 + n as int % 10);
    assert(bytes.drop_last().drop_last().drop_last().len() == 0);
    assert(bytes.drop_last().drop_last().last() == bytes[0]);
    assert(bytes.drop_last().last() == bytes[1]);
}

/// A command is read back from its text, where a byte follows that is
/// neither a letter nor a digit.
pub proof fn lemma_command_reads_back(command: CommandView, back: Seq<u8>)
    requires
        command.is_valid(),
        back.len() > 0 ==> !ByteClass::Letter.has(back[0]) && !ByteClass::Digit.has(back[0]),
    ensures
        grammar::command(encode_utf8(command.wire_text()) + back) == Some((command, back)),
        encode_utf8(command.wire_text()).len() > 0,
        encode_utf8(command.wire_text())[0] != COLON,
{
    let bytes = encode_utf8(command.wire_text());
    match command {
        CommandView::Word(word) => {
            lemma_letters_encode(word);
            assert(ByteClass::Letter.has(bytes[0]));
            lemma_token_of_text(word, back, ByteClass::Letter);
        },
        CommandView::Number(n) => {
            lemma_three_digits(n);
            assert(ByteClass::Digit.has(bytes[0]));
            assert((bytes + back)[0] == bytes[0]);
            lemma_run_of_concat(bytes, back, ByteClass::Digit);
        },
    }
}

/// The arguments from index `from` on are read back from their text, where
/// CR follows.
pub proof fn lemma_params_read_back(arguments: Seq<Seq<char>>, from: int, back: Seq<u8>)
    requires
        0 <= from <= arguments.len(),
        forall|i: int| from <= i < arguments.len() ==> argument_is_wire_safe(arguments, i),
        grammar::starts_with(back, CR),
    ensures
        grammar::params(encode_utf8(arguments_text(arguments, from)) + back) == (
            arguments.skip(from),
            back,
        ),
    decreases arguments.len() - from,
{
    let s = encode_utf8(arguments_text(arguments, from)) + back;
    if from == arguments.len() {
        assert(s =~= back);
        assert(arguments.skip(from) =~= Seq::<Seq<char>>::empty());
    } else {
        let argument = arguments[from];
        let bytes = encode_utf8(argument);
        let others = encode_utf8(arguments_text(arguments, from + 1)) + back;
        lemma_encode_one(SPACE);
        lemma_encode_one(COLON);
        encode_utf8_valid_utf8(argument);
        encode_utf8_decode_utf8(argument);
        assert(argument_is_wire_safe(arguments, from));
        lemma_encode_concat(argument_text(arguments, from), arguments_text(arguments, from + 1));
        if is_trailing(arguments, from) {
            assert(arguments_text(arguments, from + 1) =~= Seq::<char>::empty());
            assert(others =~= back);
            lemma_encode_concat(seq![' ', ':'], argument);
            lemma_encode_concat(seq![' '], seq![':']);
            assert(seq![' ', ':'] =~= seq![' '] + seq![':']);
            assert(s =~= seq![SPACE] + (seq![COLON] + (bytes + back)));
            assert(s.skip(1) =~= seq![COLON] + (bytes + back));
            assert(s.skip(1).skip(1) =~= bytes + back);
            lemma_run_of_concat(bytes, back, ByteClass::Trailing);
            assert(arguments.skip(from) =~= seq![argument]);
        } else {
            lemma_encode_concat(seq![' '], argument);
            assert(s =~= seq![SPACE] + (bytes + others));
            assert(s.skip(1) =~= bytes + others);
            assert((bytes + others)[0] == bytes[0]);
            lemma_params_read_back(arguments, from + 1, back);
            if from + 1 < arguments.len() {
                lemma_encode_concat(
                    argument_text(arguments, from + 1),
                    arguments_text(arguments, from + 2),
                );
                if is_trailing(arguments, from + 1) {
                    lemma_encode_concat(seq![' ', ':'], arguments[from + 1]);
                    lemma_encode_concat(seq![' '], seq![':']);
                    assert(seq![' ', ':'] =~= seq![' '] + seq![':']);
                } else {
                    lemma_encode_concat(seq![' '], arguments[from + 1]);
                }
                assert(others[0] == SPACE);
            } else {
                assert(arguments_text(arguments, from + 1) =~= Seq::<char>::empty());
                assert(others =~= back);
            }
            lemma_run_of_concat(bytes, others, ByteClass::Middle);
            assert(arguments.skip(from) =~= seq![argument] + arguments.skip(from + 1));
        }
    }
}

/// The line of a message that the wire can carry is read back as the
/// message, and what stands behind the line is left.
pub proof fn lemma_line_reads_back(message: MessageView, behind: Seq<u8>)
    requires
        message.is_wire_safe(),
    ensures
        grammar::message(wire_line(message) + behind) == Some((message, behind)),
{
    let origin = encode_utf8(message.prefix.wire_text());
    let verb = encode_utf8(message.command.wire_text());
    let arguments = encode_utf8(arguments_text(message.arguments, 0));
    let end = seq![CR, LF] + behind;
    let s2 = arguments + end;
    let s1 = verb + s2;
    let s = wire_line(message) + behind;
    lemma_encode_concat(
        message.prefix.wire_text() + message.command.wire_text(),
        arguments_text(message.arguments, 0),
    );
    lemma_encode_concat(message.prefix.wire_text(), message.command.wire_text());
    assert(s =~= origin + s1);
    lemma_params_read_back(message.arguments, 0, end);
    assert(message.arguments.skip(0) =~= message.arguments);
    assert(s2.len() > 0 && (s2[0] == SPACE || s2[0] == CR)) by {
        if message.arguments.len() > 0 {
            lemma_encode_one(SPACE);
            lemma_encode_one(COLON);
            lemma_encode_concat(
                argument_text(message.arguments, 0),
                arguments_text(message.arguments, 1),
            );
            if is_trailing(message.arguments, 0) {
                lemma_encode_concat(seq![' ', ':'], message.arguments[0]);
                lemma_encode_concat(seq![' '], seq![':']);
                assert(seq![' ', ':'] =~= seq![' '] + seq![':']);
            } else {
                lemma_encode_concat(seq![' '], message.arguments[0]);
            }
            assert(s2[0] == SPACE);
        } else {
            assert(arguments =~= Seq::<u8>::empty());
            assert(s2 =~= end);
        }
    }
    lemma_command_reads_back(message.command, s2);
    if message.prefix is Absent {
        assert(s =~= s1);
        assert(s1[0] == verb[0]);
    } else {
        lemma_prefix_reads_back(message.prefix, s1);
    }
    assert(end.skip(1)[0] == LF);
    assert(end.skip(2) =~= behind);
}

/// Parsing the line of a message gives the message back, with nothing left
/// behind it, if the wire can carry the message.
pub proof fn lemma_parse_of_wire_line(message: MessageView)
    requires
        message.is_wire_safe(),
    ensures
        parse_result(wire_line(message)) == Ok::<(MessageView, Seq<u8>), Seq<u8>>(
            (message, Seq::empty()),
        ),
{
    lemma_line_reads_back(message, Seq::empty());
    assert(wire_line(message) + Seq::<u8>::empty() =~= wire_line(message));
}

/// The line of a message that the wire can carry holds one LF, its last
/// byte.
pub proof fn lemma_wire_line_is_one_line(message: MessageView)
    requires
        message.is_wire_safe(),
    ensures
        line_break(wire_line(message)) == wire_line(message).len() - 1,
{
    let line = wire_line(message);
    lemma_line_reads_back(message, Seq::empty());
    assert(line + Seq::<u8>::empty() =~= line);
    grammar::lemma_message_rest(line);
    lemma_line_break_is(line, line.len() - 1);
}

/// What one side sends, the other is handed: where the line of a message
/// that the wire can carry is the first that is pending, the message is the
/// next that is handed out, and what stood behind the line is left.
pub proof fn lemma_sent_message_is_received(message: MessageView, behind: StreamView)
    requires
        message.is_wire_safe(),
    ensures
        (StreamView { pending: wire_line(message) + behind.pending, closed: behind.closed }).next()
            == (behind, Ok::<MessageView, ReadErrorView>(message)),
{
    let line = wire_line(message);
    let stream = StreamView { pending: line + behind.pending, closed: behind.closed };
    lemma_wire_line_is_one_line(message);
    lemma_line_break_bounds(line);
    assert forall|i: int| 0 <= i < line.len() - 1 implies #[trigger] stream.pending[i] != LF by {
        assert(stream.pending[i] == line[i]);
    }
    assert(stream.pending[line.len() - 1] == line[line.len() - 1]);
    lemma_line_break_is(stream.pending, line.len() - 1);
    assert(stream.first_line() =~= line);
    assert(stream.behind_first_line().pending =~= behind.pending);
    lemma_line_reads_back(message, Seq::empty());
    assert(line + Seq::<u8>::empty() =~= line);
}

/// The lines of a sequence of messages, one behind the other.
pub open spec fn wire_lines(messages: Seq<MessageView>) -> Seq<u8>
    decreases messages.len(),
{
    if messages.len() == 0 {
        Seq::empty()
    } else {
        wire_line(messages[0]) + wire_lines(messages.drop_first())
    }
}

/// Messages that the wire can carry are handed out as they were sent, in
/// the order in which they were sent, and nothing is left of their lines.
pub proof fn lemma_sent_messages_are_received(messages: Seq<MessageView>, closed: bool)
    requires
        forall|i: int| 0 <= i < messages.len() ==> (#[trigger] messages[i]).is_wire_safe(),
    ensures
        (StreamView { pending: wire_lines(messages), closed: closed }).drain() == (
            messages,
            StreamView { pending: Seq::empty(), closed: closed },
        ),
    decreases messages.len(),
{
    let stream = StreamView { pending: wire_lines(messages), closed: closed };
    if messages.len() == 0 {
        assert(!stream.has_line());
        assert(messages =~= Seq::<MessageView>::empty());
    } else {
        let others = messages.drop_first();
        let behind = StreamView { pending: wire_lines(others), closed: closed };
        assert(messages[0].is_wire_safe());
        assert forall|i: int| 0 <= i < others.len() implies (#[trigger] others[i]).is_wire_safe() by {
            assert(messages[i + 1].is_wire_safe());
        }
        lemma_sent_message_is_received(messages[0], behind);
        lemma_sent_messages_are_received(others, closed);
        assert(seq![messages[0]] + others =~= messages);
    }
}

} // verus!
