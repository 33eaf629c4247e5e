use irc::charset::ByteClass;
use irc::wire::{all_in_class, is_spelled_in};
use irc::{commands, Command, IrcStream, Message, Prefix, UserInfo};

fn reads_back(message: &Message) -> bool {
    let line = IrcStream::new().send(message);
    match Message::parse(&line) {
        Ok((found, rest)) => found == *message && rest.is_empty(),
        Err(_) => false,
    }
}

fn samples() -> Vec<Message> {
    let prefixes = vec![
        Prefix::Absent,
        Prefix::Server("some.server.here".into()),
        Prefix::Server("somedude".into()),
        Prefix::Server("".into()),
        Prefix::Server("::1".into()),
        Prefix::Server("under_score.example".into()),
        UserInfo::of_nickname("nick").to_prefix(),
        UserInfo::of_nickname("").to_prefix(),
        UserInfo::of_nickname("dotted.nick").to_prefix(),
        UserInfo::of_nickname("[n]{i}|c\\k`^_-9").to_prefix(),
        UserInfo::of_nickname_host("nick", "host").to_prefix(),
        UserInfo::of_nickname_host("nick", "").to_prefix(),
        UserInfo::of_nickname_host("nick", "host name").to_prefix(),
        UserInfo::of_nickname_user_host("nick", "~us\u{e9}r!x", "2001:db8::1").to_prefix(),
        UserInfo::of_nickname_user_host("nick", "us@er", "host").to_prefix(),
        UserInfo::of_nickname_user_host("nick", "", "host").to_prefix(),
        UserInfo::of_nickname_user_host("nick", "user", "h\u{f6}st").to_prefix(),
    ];
    let commands = vec![
        commands::PRIVMSG(),
        Command::Number(0),
        Command::Number(42),
        Command::Number(999),
        Command::Number(1000),
        Command::Word("".into()),
        Command::Word("PR1VMSG".into()),
        Command::Word("\u{e9}".into()),
    ];
    let arguments: Vec<Vec<&str>> = vec![
        vec![],
        vec!["a"],
        vec!["a", "b"],
        vec!["a b"],
        vec!["a b", "c"],
        vec!["a", "b c"],
        vec![""],
        vec!["", "a"],
        vec!["a", ""],
        vec![":a"],
        vec![":a b"],
        vec![":a", "b"],
        vec!["a:b", "::c d"],
        vec!["a\rb"],
        vec!["a\nb c"],
        vec!["a\0b"],
        vec!["\u{e9}t\u{e9}", "\u{1f600} \u{fffd}"],
        vec![" "],
        vec!["a", " "],
    ];
    let mut messages = Vec::new();
    for prefix in prefixes.iter() {
        for command in commands.iter() {
            for list in arguments.iter() {
                messages.push(Message::from_strs(prefix.clone(), command.clone(), list.clone()));
            }
        }
    }
    messages
}

#[test]
fn wire_safe_is_what_reads_back() {
    let mut safe = 0;
    let mut other = 0;
    for message in samples() {
        assert_eq!(message.is_wire_safe(), reads_back(&message), "{:?}", message);
        if message.is_wire_safe() {
            safe += 1;
        } else {
            other += 1;
        }
    }
    assert!(safe > 100);
    assert!(other > 100);
}

#[test]
fn what_is_read_is_well_formed_and_reads_back_where_it_is_wire_safe() {
    for message in samples() {
        let line = IrcStream::new().send(&message);
        if let Ok((found, _)) = Message::parse(&line) {
            assert!(found.command.is_valid());
            assert!(found.prefix.is_wire_safe());
            let last = found.arguments.len().saturating_sub(1);
            for argument in found.arguments.iter().take(last) {
                assert!(!argument.contains(' '));
            }
        }
    }
}

#[test]
fn wire_safe_examples() {
    assert!(Message::privmsg("#channel", "Hey everyone!").is_wire_safe());
    assert!(Message::join("#superhugs").is_wire_safe());
    assert!(Message::user("echobot", "Echo Bot").is_wire_safe());
    assert!(!Message::privmsg("two words", "Hey everyone!").is_wire_safe());
    assert!(!Message::privmsg("#channel", "").is_wire_safe());
    assert!(!Message::privmsg("#channel", ":-)").is_wire_safe());
    assert!(Message::privmsg("#channel", ":-) hi").is_wire_safe());
    assert!(!Message::privmsg("#channel", "line\nbreak here").is_wire_safe());
    assert!(!Message::new(Prefix::Server("somedude".into()), commands::PING(), vec![]).is_wire_safe());
    assert!(Message::new(Prefix::Server("some.dude".into()), commands::PING(), vec![]).is_wire_safe());
    assert!(!Message::new(Prefix::Absent, Command::Number(1000), vec![]).is_wire_safe());
}

#[test]
fn valid_commands() {
    assert!(commands::PING().is_valid());
    assert!(Command::Word("PrIvMsG".into()).is_valid());
    assert!(!Command::Word("".into()).is_valid());
    assert!(!Command::Word("PR1VMSG".into()).is_valid());
    assert!(!Command::Word("PING ".into()).is_valid());
    assert!(!Command::Word("\u{e9}".into()).is_valid());
    assert!(Command::Number(0).is_valid());
    assert!(Command::Number(999).is_valid());
    assert!(!Command::Number(1000).is_valid());
}

#[test]
fn spelling() {
    assert!(all_in_class(b"", ByteClass::Letter));
    assert!(all_in_class(b"abc", ByteClass::Letter));
    assert!(!all_in_class(b"ab1", ByteClass::Letter));
    assert!(!is_spelled_in("", ByteClass::Middle));
    assert!(is_spelled_in("a:b", ByteClass::Middle));
    assert!(is_spelled_in("\u{e9}", ByteClass::Middle));
    assert!(!is_spelled_in("\u{e9}", ByteClass::Host));
    assert!(!is_spelled_in("a b", ByteClass::Middle));
    assert!(is_spelled_in("a b", ByteClass::Trailing));
    assert!(is_spelled_in("us!er", ByteClass::Username));
    assert!(!is_spelled_in("us@er", ByteClass::Username));
}
