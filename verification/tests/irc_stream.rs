use irc::commands::PING;
use irc::{IrcStream, Message, Prefix, ReadError};

#[test]
fn reader_read() {
    let input = b"PING 123\r\nPING 456\r\nPING 789\r\n".to_vec();

    let mut reader = IrcStream::new();
    reader.receive(&input);
    reader.close();

    assert_eq!(
        reader.next_message().unwrap(),
        Message::from_strs(Prefix::Absent, PING(), vec!["123"])
    );
    assert_eq!(
        reader.next_message().unwrap(),
        Message::from_strs(Prefix::Absent, PING(), vec!["456"])
    );
    assert_eq!(
        reader.next_message().unwrap(),
        Message::from_strs(Prefix::Absent, PING(), vec!["789"])
    );

    assert!(reader.next_message().is_err());
}

#[test]
fn reader_as_iterator() {
    let input = b"PING 123\r\nPING 456\r\nPING 789\r\n".to_vec();

    let mut reader = IrcStream::new();
    reader.receive(&input);
    reader.close();

    let mut messages = 0;

    for message in reader.messages() {
        messages += 1;
        assert_eq!(message.command, PING());
    }

    assert_eq!(messages, 3);
}

#[test]
fn one_byte_at_a_time() {
    let input = b"PING 1\r\nPING 2\r\n";
    let mut reader = IrcStream::new();
    let mut found = Vec::new();
    for byte in input.iter() {
        reader.receive(&[*byte]);
        loop {
            match reader.next_message() {
                Ok(message) => found.push(message),
                Err(error) => {
                    assert_eq!(error, ReadError::WouldBlock);
                    break;
                }
            }
        }
    }
    assert_eq!(
        found,
        vec![
            Message::from_strs(Prefix::Absent, PING(), vec!["1"]),
            Message::from_strs(Prefix::Absent, PING(), vec!["2"]),
        ]
    );
}

#[test]
fn bytes_behind_a_line_are_kept() {
    let mut reader = IrcStream::new();
    reader.receive(b"PING 1\r\nPING");
    assert_eq!(reader.next_message(), Ok(Message::from_strs(Prefix::Absent, PING(), vec!["1"])));
    assert_eq!(reader.next_message(), Err(ReadError::WouldBlock));
    reader.receive(b" 2\r");
    assert_eq!(reader.next_message(), Err(ReadError::WouldBlock));
    reader.receive(b"\nPI");
    assert_eq!(reader.next_message(), Ok(Message::from_strs(Prefix::Absent, PING(), vec!["2"])));
    assert_eq!(reader.next_message(), Err(ReadError::WouldBlock));
    reader.close();
    assert_eq!(reader.next_message(), Err(ReadError::Closed));
    assert_eq!(reader.next_message(), Err(ReadError::Closed));
}

#[test]
fn an_empty_stream_waits_and_then_is_closed() {
    let mut reader = IrcStream::new();
    assert_eq!(reader.next_message(), Err(ReadError::WouldBlock));
    reader.close();
    assert_eq!(reader.next_message(), Err(ReadError::Closed));
}

#[test]
fn a_bad_line_is_reported_and_the_next_is_read() {
    let mut reader = IrcStream::new();
    reader.receive(b"1234 x\r\nPING 2\r\nPING 3\n");
    match reader.next_message() {
        Err(ReadError::InvalidData(error)) => {
            assert_eq!(error.input(), &b"1234 x\r\n".to_vec());
            assert_eq!(error.to_string(), "Failed to parse line: [1234 x\r\n]");
        }
        other => panic!("{:?}", other),
    }
    assert_eq!(reader.next_message(), Ok(Message::from_strs(Prefix::Absent, PING(), vec!["2"])));
    match reader.next_message() {
        Err(ReadError::InvalidData(error)) => assert_eq!(error.input(), &b"PING 3\n".to_vec()),
        other => panic!("{:?}", other),
    }
    assert_eq!(reader.next_message(), Err(ReadError::WouldBlock));
}

#[test]
fn messages_stop_at_the_first_failure() {
    let mut reader = IrcStream::new();
    reader.receive(b"PING 1\r\nPING 2\r\nbad line\nPING 3\r\nPI");
    assert_eq!(
        reader.messages(),
        vec![
            Message::from_strs(Prefix::Absent, PING(), vec!["1"]),
            Message::from_strs(Prefix::Absent, PING(), vec!["2"]),
        ]
    );
    assert_eq!(reader.messages(), vec![Message::from_strs(Prefix::Absent, PING(), vec!["3"])]);
    assert_eq!(reader.messages(), vec![]);
    assert_eq!(reader.next_message(), Err(ReadError::WouldBlock));
}

#[test]
fn send_frames_the_message() {
    let writer = IrcStream::new();
    assert_eq!(
        writer.send(&Message::from_strs(Prefix::Absent, PING(), vec!["123"])),
        b"PING 123\r\n".to_vec()
    );
    assert_eq!(
        writer.send(&Message::privmsg("#caf\u{e9}", "Hey I love being on IRC")),
        "PRIVMSG #caf\u{e9} :Hey I love being on IRC\r\n".as_bytes().to_vec()
    );
}

#[test]
fn what_is_sent_is_read_back() {
    let sent = vec![
        Message::nick("zootmbot"),
        Message::user("echobot", "Echo Bot"),
        Message::join("#superhugs"),
        Message::privmsg("#superhugs", "Hey I love being on IRC"),
    ];
    let writer = IrcStream::new();
    let mut reader = IrcStream::new();
    for message in sent.iter() {
        reader.receive(&writer.send(message));
    }
    assert_eq!(reader.messages(), sent);
}
