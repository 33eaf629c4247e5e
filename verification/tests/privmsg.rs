use irc::messages::ping::Ping;
use irc::messages::privmsg::Privmsg;
use irc::{commands, Message, Prefix, UserInfo};

fn message(message: &str) -> Message {
    let parsed = Message::parse(message.as_bytes());
    match parsed {
        Ok((msg, _)) => msg,
        other => panic!("Could not parse {}, got result {:?}", message, other),
    }
}

#[test]
fn successful() {
    let message = message(":nick!someone@somewhere PRIVMSG #channel :Hey everyone!\r\n");
    let privmsg = message.as_privmsg();

    assert_eq!(
        privmsg,
        Some(Privmsg {
            from: &UserInfo::of_nickname_user_host("nick", "someone", "somewhere"),
            to: "#channel",
            text: "Hey everyone!",
        })
    );
}

#[test]
fn bad_no_message() {
    let message = message(":nick!someone@somewhere PRIVMSG #channel\r\n");
    assert_eq!(message.as_privmsg(), None);
}

#[test]
fn bad_too_many_arguments() {
    let message = message(
        ":nick!someone@somewhere PRIVMSG #channel #anotherchannel \
                               :message\r\n",
    );
    assert_eq!(message.as_privmsg(), None);
}

#[test]
fn bad_server_prefix() {
    let message = message(":test.irc.com PRIVMSG #channel :message\r\n");
    assert_eq!(message.as_privmsg(), None);
}

#[test]
fn bad_no_prefix() {
    let message = message("PRIVMSG #channel :message\r\n");
    assert_eq!(message.as_privmsg(), None);
}

#[test]
fn bad_not_privmsg() {
    let message = message(":nick!someone@somewhere PING #channel\r\n");
    assert_eq!(message.as_privmsg(), None);
}

#[test]
fn privmsg_from_a_bare_nickname() {
    let message = message(":nick PRIVMSG you :hello\r\n");
    assert_eq!(
        message.as_privmsg(),
        Some(Privmsg { from: &UserInfo::of_nickname("nick"), to: "you", text: "hello" })
    );
}

#[test]
fn privmsg_with_no_arguments_is_none() {
    let message = message(":nick PRIVMSG\r\n");
    assert_eq!(message.as_privmsg(), None);
}

#[test]
fn privmsg_in_lower_case_is_another_command() {
    let message = message(":nick privmsg you :hello\r\n");
    assert_eq!(message.as_privmsg(), None);
}

#[test]
fn outgoing_messages() {
    assert_eq!(
        Message::privmsg("#channel", "Hey everyone!"),
        Message::from_strs(Prefix::Absent, commands::PRIVMSG(), vec!["#channel", "Hey everyone!"])
    );
    assert_eq!(Message::privmsg("#channel", "Hey everyone!").to_string(), "PRIVMSG #channel :Hey everyone!");
    assert_eq!(
        Message::join("#superhugs"),
        Message::from_strs(Prefix::Absent, commands::JOIN(), vec!["#superhugs"])
    );
    assert_eq!(Message::join("#superhugs").to_string(), "JOIN #superhugs");
    assert_eq!(
        Message::nick("zootmbot"),
        Message::from_strs(Prefix::Absent, commands::NICK(), vec!["zootmbot"])
    );
    assert_eq!(Message::nick("zootmbot").to_string(), "NICK zootmbot");
    assert_eq!(
        Message::user("echobot", "Echo Bot"),
        Message::from_strs(Prefix::Absent, commands::USER(), vec!["echobot", "0", "*", "Echo Bot"])
    );
    assert_eq!(Message::user("echobot", "Echo Bot").to_string(), "USER echobot 0 * :Echo Bot");
}

#[test]
fn ping_is_read_from_a_ping_only() {
    let ping = message("PING 12345\r\n");
    assert_eq!(ping.as_ping(), Some(Ping { arguments: &vec!["12345".to_string()] }));
    assert_eq!(message("PONG 12345\r\n").as_ping(), None);
    assert_eq!(message("ping 12345\r\n").as_ping(), None);
    assert_eq!(message("001 12345\r\n").as_ping(), None);
}

#[test]
fn pong_echoes_the_arguments_of_the_ping() {
    let ping = message("PING 12345 :some.server here\r\n");
    let pong = ping.as_ping().unwrap().pong();
    assert_eq!(
        pong,
        Message::from_strs(Prefix::Absent, commands::PONG(), vec!["12345", "some.server here"])
    );
    assert_eq!(pong.arguments, ping.arguments);
    assert_eq!(pong.prefix, ping.prefix);
    assert_eq!(pong.to_string(), "PONG 12345 :some.server here");

    let bare = message("PING\r\n");
    assert_eq!(bare.as_ping().unwrap().pong(), Message::new(Prefix::Absent, commands::PONG(), vec![]));
}

#[test]
fn pong_to_a_ping_with_a_prefix_has_none() {
    let ping = message(":irc.example.net PING 1\r\n");
    let pong = ping.as_ping().unwrap().pong();
    assert_eq!(ping.prefix, Prefix::Server("irc.example.net".to_string()));
    assert_eq!(pong, Message::from_strs(Prefix::Absent, commands::PONG(), vec!["1"]));
}
