use irc::commands::{PING, PRIVMSG};
use irc::responses::RPL_WELCOME;
use irc::{Message, Prefix, UserInfo};

#[test]
fn command_only() {
    let line = Message::new(Prefix::Absent, PING(), vec![]);

    assert_eq!(line.to_string(), "PING");
}

#[test]
fn server_prefix() {
    let line = Message::new(Prefix::Server("somedude".into()), PING(), vec![]);

    assert_eq!(line.to_string(), ":somedude PING");
}

#[test]
fn response() {
    let line = Message::from_strs(
        Prefix::Server("some.server.here".into()),
        RPL_WELCOME(),
        vec!["Welcome to the server!"],
    );

    assert_eq!(line.to_string(), ":some.server.here 001 :Welcome to the server!");
}

#[test]
fn user_prefix_nickname_only() {
    let line = Message::from_strs(UserInfo::of_nickname("nickname").to_prefix(), PING(), vec![]);

    assert_eq!(line.to_string(), ":nickname PING");
}

#[test]
fn user_prefix_nickname_host() {
    let user_info = UserInfo::of_nickname_host("nickname", "some.host.name");
    let line = Message::new(user_info.to_prefix(), PING(), vec![]);

    assert_eq!(line.to_string(), ":nickname@some.host.name PING");
}

#[test]
fn user_prefix_all_user_info() {
    let user_info = UserInfo::of_nickname_user_host("nickname", "realname", "some.host.name");
    let line = Message::new(user_info.to_prefix(), PING(), vec![]);

    assert_eq!(line.to_string(), ":nickname!realname@some.host.name PING");
}

#[test]
fn command_args() {
    let line = Message::from_strs(Prefix::Absent, PRIVMSG(), vec!["someone", "something"]);

    assert_eq!(line.to_string(), "PRIVMSG someone something");
}

#[test]
fn command_args_with_long_final_argument() {
    let line = Message::from_strs(
        Prefix::Absent,
        PRIVMSG(),
        vec!["someone", "Hey I love being on IRC"],
    );

    assert_eq!(line.to_string(), "PRIVMSG someone :Hey I love being on IRC");
}

#[test]
fn everything() {
    let line = Message::from_strs(
        Prefix::Server("information".into()),
        PRIVMSG(),
        vec!["someone", "something", "Hey I love being on IRC"],
    );

    assert_eq!(
        line.to_string(),
        ":information PRIVMSG someone something :Hey I love being on IRC"
    );
}

#[test]
fn new_keeps_its_parts() {
    let line = Message::new(
        Prefix::Server("host".into()),
        PING(),
        vec!["a".to_string(), "b".to_string()],
    );

    assert_eq!(line.prefix, Prefix::Server("host".to_string()));
    assert_eq!(line.command, PING());
    assert_eq!(line.arguments, vec!["a".to_string(), "b".to_string()]);
}

#[test]
fn from_strs_copies_the_arguments() {
    let line = Message::from_strs(Prefix::Absent, PING(), vec!["a", "b c"]);

    assert_eq!(line, Message::new(Prefix::Absent, PING(), vec!["a".to_string(), "b c".to_string()]));
}

#[test]
fn user_info_parts() {
    let nick = UserInfo::of_nickname("n");
    assert_eq!(nick, UserInfo::Nick("n".to_string()));
    assert_eq!(nick.nickname(), "n");
    assert_eq!(nick.host(), None);
    assert_eq!(nick.username(), None);
    assert_eq!(nick.to_string(), "n");

    let nick_host = UserInfo::of_nickname_host("n", "h");
    assert_eq!(nick_host, UserInfo::NickHost("n".to_string(), "h".to_string()));
    assert_eq!(nick_host.nickname(), "n");
    assert_eq!(nick_host.host(), Some("h"));
    assert_eq!(nick_host.username(), None);
    assert_eq!(nick_host.to_string(), "n@h");

    let full = UserInfo::of_nickname_user_host("n", "u", "h");
    assert_eq!(full, UserInfo::NickUserHost("n".to_string(), "u".to_string(), "h".to_string()));
    assert_eq!(full.nickname(), "n");
    assert_eq!(full.host(), Some("h"));
    assert_eq!(full.username(), Some("u"));
    assert_eq!(full.to_string(), "n!u@h");
    assert_eq!(full.clone().to_prefix(), Prefix::User(full));
}

#[test]
fn only_the_last_argument_gets_a_colon() {
    let line = Message::from_strs(Prefix::Absent, PRIVMSG(), vec!["a b", "c", "d e"]);
    assert_eq!(line.to_string(), "PRIVMSG a b c :d e");

    let line = Message::from_strs(Prefix::Absent, PRIVMSG(), vec!["a b", "c"]);
    assert_eq!(line.to_string(), "PRIVMSG a b c");
}

#[test]
fn a_last_argument_without_a_space_gets_no_colon() {
    let line = Message::from_strs(Prefix::Absent, PRIVMSG(), vec!["someone", ""]);
    assert_eq!(line.to_string(), "PRIVMSG someone ");

    let line = Message::from_strs(Prefix::Absent, PRIVMSG(), vec!["someone", "tab\there"]);
    assert_eq!(line.to_string(), "PRIVMSG someone tab\there");

    let line = Message::from_strs(Prefix::Absent, PRIVMSG(), vec!["someone", "\u{e9}t\u{e9} chaud"]);
    assert_eq!(line.to_string(), "PRIVMSG someone :\u{e9}t\u{e9} chaud");

    let line = Message::from_strs(Prefix::Absent, PRIVMSG(), vec![" "]);
    assert_eq!(line.to_string(), "PRIVMSG : ");
}
