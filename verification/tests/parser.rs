use irc::commands;
use irc::parser::{command, final_param, host, message, params, prefix};
use irc::responses;
use irc::{Message, Prefix, UserInfo};

#[test]
fn host_hostname() {
    match host("hello-world.com".as_bytes()) {
        Some((out, _)) => assert_eq!(out, "hello-world.com"),
        other => panic!("{:?}", other),
    }
}

#[test]
fn host_ipv4() {
    match host("192.168.0.1".as_bytes()) {
        Some((out, _)) => assert_eq!(out, "192.168.0.1"),
        other => panic!("{:?}", other),
    }
}

#[test]
fn host_ipv6() {
    match host("2001:db8:85a3::8a2e:370:7334".as_bytes()) {
        Some((out, _)) => assert_eq!(out, "2001:db8:85a3::8a2e:370:7334"),
        other => panic!("{:?}", other),
    }
}

#[test]
fn host_user_info_does_not_match() {
    let result = host("hello!user@place".as_bytes());

    assert!(
        result.as_ref().map(|found| found.1).unwrap().len() > 0,
        "Expected unfinished matching but got {:?}",
        result
    );
}

#[test]
fn command_word() {
    match command("PING".as_bytes()) {
        Some((out, _)) => assert_eq!(out, commands::PING()),
        other => panic!("{:?}", other),
    }
}

#[test]
fn command_numeric() {
    match command("004".as_bytes()) {
        Some((out, _)) => assert_eq!(out, responses::RPL_MYINFO()),
        other => panic!("{:?}", other),
    }
}

#[test]
fn final_param_with_content() {
    match final_param(":content can contain spaces and ':'".as_bytes()) {
        Some((out, _)) => assert_eq!(out, "content can contain spaces and ':'"),
        other => panic!("{:?}", other),
    }
}

#[test]
fn params_multiple() {
    let (out, _) = params(" here are some :parameters including a long final one".as_bytes());
    assert_eq!(out, vec!["here", "are", "some", "parameters including a long final one"]);
}

#[test]
fn params_no_trailing() {
    let (out, _) = params(" here are some parameters".as_bytes());
    assert_eq!(out, vec!["here", "are", "some", "parameters"]);
}

#[test]
fn message_no_prefix() {
    match message("PRIVMSG someone :Hey what is up\r\n".as_bytes()) {
        Some((out, _)) => {
            assert_eq!(
                out,
                Message::from_strs(
                    Prefix::Absent,
                    commands::PRIVMSG(),
                    vec!["someone", "Hey what is up"]
                )
            )
        }
        other => panic!("{:?}", other),
    }
}

#[test]
fn message_invalid_utf8() {
    match message(b"PRIVMSG someone :Hey there \xc3\r\n") {
        Some((out, _)) => {
            assert_eq!(
                out,
                Message::from_strs(
                    Prefix::Absent,
                    commands::PRIVMSG(),
                    vec!["someone", "Hey there \u{fffd}"]
                )
            )
        }
        other => panic!("{:?}", other),
    }
}

#[test]
fn message_user_prefix() {
    match message(":x!y@z PRIVMSG someone :Hey what is up\r\n".as_bytes()) {
        Some((out, _)) => {
            assert_eq!(
                out,
                Message::from_strs(
                    Prefix::User(UserInfo::of_nickname_user_host("x".into(), "y".into(), "z".into())),
                    commands::PRIVMSG(),
                    vec!["someone", "Hey what is up"]
                )
            )
        }
        other => panic!("{:?}", other),
    }
}

#[test]
fn message_server_prefix() {
    match message(":some.where PRIVMSG someone :Hey what is up\r\n".as_bytes()) {
        Some((out, _)) => {
            assert_eq!(
                out,
                Message::from_strs(
                    Prefix::Server("some.where".into()),
                    commands::PRIVMSG(),
                    vec!["someone", "Hey what is up"]
                )
            )
        }
        other => panic!("{:?}", other),
    }
}

#[test]
fn prefix_server() {
    match prefix(":some.where.com ".as_bytes()) {
        Some((out, _)) => assert_eq!(out, Prefix::Server("some.where.com".into())),
        other => panic!("{:?}", other),
    }
}

#[test]
fn prefix_user_prefix_full() {
    match prefix(":x!y@z ".as_bytes()) {
        Some((out, _)) => {
            assert_eq!(
                out,
                Prefix::User(UserInfo::of_nickname_user_host("x".into(), "y".into(), "z".into()))
            )
        }
        other => panic!("{:?}", other),
    }
}

#[test]
fn prefix_user_prefix_nickname_only() {
    match prefix(":aperson ".as_bytes()) {
        Some((out, _)) => {
            assert_eq!(out, Prefix::User(UserInfo::of_nickname("aperson".into())))
        }
        other => panic!("{:?}", other),
    }
}

#[test]
fn real_message_complex() {
    match message(
        ":leguin.freenode.net 005 zootmbot CHANTYPES=# EXCEPTS INVEX \
                   CHANMODES=eIbq,k,flj,CFLMPQScgimnprstz CHANLIMIT=#:120 PREFIX=(ov)@+ \
                   MAXLIST=bqeI:100 MODES=4 NETWORK=freenode KNOCK STATUSMSG=@+ CALLERID=g :are \
                   supported by this server\r\n"
            .as_bytes(),
    ) {
        Some((out, _)) => {
            assert_eq!(
                out,
                Message::from_strs(
                    Prefix::Server("leguin.freenode.net".into()),
                    responses::RPL_BOUNCE(),
                    vec![
                        "zootmbot",
                        "CHANTYPES=#",
                        "EXCEPTS",
                        "INVEX",
                        "CHANMODES=eIbq,k,flj,CFLMPQScgimnprstz",
                        "CHANLIMIT=#:120",
                        "PREFIX=(ov)@+",
                        "MAXLIST=bqeI:100",
                        "MODES=4",
                        "NETWORK=freenode",
                        "KNOCK",
                        "STATUSMSG=@+",
                        "CALLERID=g",
                        "are supported by this server"
                    ]
                )
            )
        }
        other => panic!("{:?}", other),
    }
}
