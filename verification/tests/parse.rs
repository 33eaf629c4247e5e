use irc::client::handle_line;
use irc::parser::{
    command, message, nickname, param, params, parse_message, prefix, user_info, username,
};
use irc::{commands, Command, Message, Prefix, UserInfo};

#[test]
fn simple_parse() {
    match Message::parse("PING 12345\r\nsome other content".as_bytes()) {
        Ok((msg, remaining)) => {
            assert_eq!(msg, Message::from_strs(Prefix::Absent, commands::PING(), vec!["12345"]));
            assert_eq!(remaining, "some other content".as_bytes());
        }
        other => panic!("{:?}", other),
    }
}

#[test]
fn prefix_forms() {
    let (msg, rest) = Message::parse(b":nick!user@host COMMAND\r\n").unwrap();
    assert_eq!(msg.prefix, Prefix::User(UserInfo::of_nickname_user_host("nick", "user", "host")));
    assert_eq!(msg.command, Command::of_word("COMMAND").unwrap());
    assert_eq!(rest, b"");

    let (msg, _) = Message::parse(b":nick@host COMMAND\r\n").unwrap();
    assert_eq!(msg.prefix, Prefix::User(UserInfo::of_nickname_host("nick", "host")));

    let (msg, _) = Message::parse(b":bareword COMMAND\r\n").unwrap();
    assert_eq!(msg.prefix, Prefix::User(UserInfo::of_nickname("bareword")));

    let (msg, _) = Message::parse(b":dotted.word COMMAND\r\n").unwrap();
    assert_eq!(msg.prefix, Prefix::Server("dotted.word".to_string()));

    let (msg, _) = Message::parse(b":::1 COMMAND\r\n").unwrap();
    assert_eq!(msg.prefix, Prefix::Server("::1".to_string()));

    let (msg, _) = Message::parse(b"COMMAND\r\n").unwrap();
    assert_eq!(msg.prefix, Prefix::Absent);
}

#[test]
fn prefix_that_fits_no_form_fails_the_line() {
    assert!(Message::parse(b":nick_name.example COMMAND\r\n").is_err());
    assert!(Message::parse(b":nick!user COMMAND\r\n").is_err());
    assert!(Message::parse(b":nick@ COMMAND\r\n").is_err());
    assert!(Message::parse(b":nick!@host COMMAND\r\n").is_err());
    assert!(Message::parse(b":nick!user@host_x COMMAND\r\n").is_err());
    assert!(Message::parse(b": COMMAND\r\n").is_err());
    assert!(Message::parse(b":nick  COMMAND\r\n").is_err());
    assert!(Message::parse(b":nick\r\n").is_err());
}

#[test]
fn user_name_must_be_text() {
    assert!(Message::parse(b":nick!us\xffer@host COMMAND\r\n").is_err());
    let (msg, _) = Message::parse(":nick!us\u{e9}r@host COMMAND\r\n".as_bytes()).unwrap();
    assert_eq!(msg.prefix, Prefix::User(UserInfo::of_nickname_user_host("nick", "us\u{e9}r", "host")));
    assert_eq!(username(b"a!b:c@d"), Some(("a!b:c".to_string(), &b"@d"[..])));
    assert_eq!(username(b"@d"), None);
    assert_eq!(username(b"\xff@d"), None);
}

#[test]
fn user_info_forms() {
    assert_eq!(
        user_info(b"n!u@h rest"),
        Some((UserInfo::of_nickname_user_host("n", "u", "h"), &b" rest"[..]))
    );
    assert_eq!(user_info(b"n@h rest"), Some((UserInfo::of_nickname_host("n", "h"), &b" rest"[..])));
    assert_eq!(user_info(b"n rest"), Some((UserInfo::of_nickname("n"), &b" rest"[..])));
    assert_eq!(user_info(b"n!u rest"), Some((UserInfo::of_nickname("n"), &b"!u rest"[..])));
    assert_eq!(user_info(b"n@ rest"), Some((UserInfo::of_nickname("n"), &b"@ rest"[..])));
    assert_eq!(user_info(b".n"), None);
    assert_eq!(nickname(b"[a-b]_^{|}`\\9.x"), Some(("[a-b]_^{|}`\\9".to_string(), &b".x"[..])));
    assert_eq!(prefix(b"n!u@h "), None);
}

#[test]
fn multiple_parameters() {
    let (msg, rest) = Message::parse(b"005 nick A B :C D E\r\n").unwrap();
    assert_eq!(msg.command, Command::Number(5));
    assert_eq!(msg.arguments, vec!["nick", "A", "B", "C D E"]);
    assert_eq!(msg.prefix, Prefix::Absent);
    assert_eq!(rest, b"");
}

#[test]
fn numeric_commands() {
    assert_eq!(command(b"1 x"), Some((Command::Number(1), &b" x"[..])));
    assert_eq!(command(b"12 x"), Some((Command::Number(12), &b" x"[..])));
    assert_eq!(command(b"999"), Some((Command::Number(999), &b""[..])));
    assert_eq!(command(b"000"), Some((Command::Number(0), &b""[..])));
    assert_eq!(command(b"1234"), None);
    assert_eq!(command(b"99999"), None);
    assert_eq!(command(b""), None);
    assert_eq!(command(b" 1"), None);
    assert_eq!(command(b"PR1VMSG"), Some((Command::of_word("PR").unwrap(), &b"1VMSG"[..])));
    assert_eq!(command(b"1ABC"), Some((Command::Number(1), &b"ABC"[..])));
}

#[test]
fn malformed_commands_fail_the_line() {
    assert!(Message::parse(b"1234 x\r\n").is_err());
    assert!(Message::parse(b"12345\r\n").is_err());
    assert!(Message::parse(b"PR1VMSG x\r\n").is_err());
    assert!(Message::parse(b"1PING x\r\n").is_err());
    assert!(Message::parse(b" PING\r\n").is_err());
    assert!(Message::parse(b"\r\n").is_err());
    assert!(Message::parse(b"").is_err());
}

#[test]
fn the_line_terminator_is_required() {
    assert!(Message::parse(b"PING 1").is_err());
    assert!(Message::parse(b"PING 1\r").is_err());
    assert!(Message::parse(b"PING 1\n").is_err());
    assert!(Message::parse(b"PING 1\n\r").is_err());
    assert!(Message::parse(b"PING 1 \r\n").is_err());
    assert!(Message::parse(b"PING  1\r\n").is_err());
    assert!(Message::parse(b"PING 1\0\r\n").is_err());
    assert!(Message::parse(b"PING :a\rb\r\n").is_err());
}

#[test]
fn parameters() {
    assert_eq!(params(b""), (vec![], &b""[..]));
    assert_eq!(params(b"x"), (vec![], &b"x"[..]));
    assert_eq!(params(b" "), (vec![], &b" "[..]));
    assert_eq!(params(b" a  b"), (vec!["a".to_string()], &b"  b"[..]));
    assert_eq!(params(b" a:b c:d\r\n"), (vec!["a:b".to_string(), "c:d".to_string()], &b"\r\n"[..]));
    assert_eq!(params(b" :\r\n"), (vec!["".to_string()], &b"\r\n"[..]));
    assert_eq!(params(b" ::a :b\r\n"), (vec![":a :b".to_string()], &b"\r\n"[..]));
    assert_eq!(params(b" a :b c\0 d"), (vec!["a".to_string(), "b c".to_string()], &b"\0 d"[..]));
    assert_eq!(param(b":a"), Some((":a".to_string(), &b""[..])));
    assert_eq!(param(b" a"), None);
}

#[test]
fn parameters_that_are_not_text_are_repaired() {
    let (msg, _) = Message::parse(b"PRIVMSG some\xffone :Hey \xc3\r\n").unwrap();
    assert_eq!(msg.arguments, vec!["some\u{fffd}one", "Hey \u{fffd}"]);
    let (msg, _) = Message::parse("PRIVMSG \u{e9}t\u{e9} :\u{1f600} ok\r\n".as_bytes()).unwrap();
    assert_eq!(msg.arguments, vec!["\u{e9}t\u{e9}", "\u{1f600} ok"]);
}

#[test]
fn parse_error_keeps_the_input() {
    let error = parse_message(b"1234 x\r\nmore").unwrap_err();
    assert_eq!(error.input(), &b"1234 x\r\nmore".to_vec());
    assert_eq!(error.description(), "failed to parse IRC message from line");
    assert_eq!(error.to_string(), "Failed to parse line: [1234 x\r\nmore]");

    let error = parse_message(b"\xff\x00\x0a").unwrap_err();
    assert_eq!(
        error.to_string(),
        "Failed to parse line and could not interpret as UTF-8, raw bytes: [[255, 0, 10]]"
    );
    let error = parse_message(b"\xc3").unwrap_err();
    assert_eq!(
        error.to_string(),
        "Failed to parse line and could not interpret as UTF-8, raw bytes: [[195]]"
    );
    let error = parse_message(b"").unwrap_err();
    assert_eq!(error.to_string(), "Failed to parse line: []");
}

#[test]
fn parse_and_parse_message_agree() {
    assert_eq!(Message::parse(b"PING 1\r\nx"), parse_message(b"PING 1\r\nx"));
    assert_eq!(Message::parse(b"PING 1"), parse_message(b"PING 1"));
    assert_eq!(message(b"PING 1\r\nx").unwrap(), parse_message(b"PING 1\r\nx").unwrap());
    assert_eq!(message(b"PING 1"), None);
}

#[test]
fn serialized_messages_parse_back() {
    let messages = vec![
        Message::from_strs(Prefix::Absent, commands::PING(), vec![]),
        Message::from_strs(Prefix::Absent, commands::PRIVMSG(), vec!["someone", "something"]),
        Message::from_strs(
            Prefix::Server("some.server.here".into()),
            Command::of_number(1).unwrap(),
            vec!["Welcome to the server!"],
        ),
        Message::from_strs(
            UserInfo::of_nickname_user_host("nick", "~us\u{e9}r", "2001:db8::1").to_prefix(),
            commands::PRIVMSG(),
            vec!["#ch\u{e9}", "::) hi"],
        ),
        Message::from_strs(
            UserInfo::of_nickname_host("nick", "host").to_prefix(),
            Command::of_number(42).unwrap(),
            vec!["a:b", "c"],
        ),
        Message::from_strs(UserInfo::of_nickname("nick").to_prefix(), commands::JOIN(), vec!["#a"]),
    ];
    for message in messages {
        let mut line = message.to_string().into_bytes();
        line.extend_from_slice(b"\r\n");
        let (found, rest) = Message::parse(&line).unwrap();
        assert_eq!(found, message);
        assert_eq!(rest, b"");
    }
}

#[test]
fn some_messages_do_not_parse_back() {
    let host_like_nick = Message::from_strs(Prefix::Server("somedude".into()), commands::PING(), vec![]);
    let (found, _) = Message::parse(b":somedude PING\r\n").unwrap();
    assert_eq!(host_like_nick.to_string(), ":somedude PING");
    assert_eq!(found.prefix, Prefix::User(UserInfo::of_nickname("somedude")));

    let colon_first = Message::from_strs(Prefix::Absent, commands::PING(), vec![":x"]);
    assert_eq!(colon_first.to_string(), "PING :x");
    let (found, _) = Message::parse(b"PING :x\r\n").unwrap();
    assert_eq!(found.arguments, vec!["x"]);

    let empty_last = Message::from_strs(Prefix::Absent, commands::PING(), vec![""]);
    assert_eq!(empty_last.to_string(), "PING ");
    assert!(Message::parse(b"PING \r\n").is_err());

    let bare = Message::from_strs(Prefix::Absent, commands::PING(), vec![]);
    assert!(Message::parse(bare.to_string().as_bytes()).is_err());
}

#[test]
fn handle_line_returns_what_is_behind_the_line() {
    assert_eq!(handle_line(&b"PING 1\r\nPING 2\r\n".to_vec()), b"PING 2\r\n".to_vec());
    assert_eq!(handle_line(&b"PING 1\r\n".to_vec()), b"".to_vec());
    assert_eq!(handle_line(&b"PING 1\r\nPI".to_vec()), b"PI".to_vec());
    assert_eq!(handle_line(&b"1234\r\nPING 2\r\n".to_vec()), b"".to_vec());
    assert_eq!(handle_line(&b"PING".to_vec()), b"".to_vec());
}
