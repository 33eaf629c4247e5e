use irc::commands;
use irc::responses;
use irc::{Command, CommandError};

#[test]
fn of_number_valid() {
    Command::of_number(123).unwrap();
}

#[test]
#[should_panic]
fn of_number_too_large() {
    Command::of_number(1000).unwrap();
}

#[test]
fn of_word_valid() {
    Command::of_word("PrIvMsG").unwrap();
}

#[test]
#[should_panic]
fn of_word_non_alpha_chars() {
    Command::of_word("PR1VMSG").unwrap();
}

#[test]
fn fmt_number_unpadded() {
    assert_eq!(Command::of_number(123).unwrap().to_string(), "123");
}

#[test]
fn fmt_number_padded() {
    assert_eq!(Command::of_number(1).unwrap().to_string(), "001");
}

#[test]
fn commands() {
    assert_eq!(commands::PRIVMSG(), Command::of_word("PRIVMSG").unwrap());
}

#[test]
fn replies() {
    assert_eq!(responses::RPL_BOUNCE(), Command::of_number(5).unwrap());
}

#[test]
fn of_word_keeps_the_text() {
    assert_eq!(Command::of_word("PrIvMsG"), Ok(Command::Word("PrIvMsG".to_string())));
    assert_eq!(Command::of_word("PrIvMsG").unwrap().to_string(), "PrIvMsG");
    assert_eq!(Command::of_word("a").unwrap().to_string(), "a");
    assert_eq!(Command::of_word("AZaz").unwrap().to_string(), "AZaz");
}

#[test]
fn of_word_empty_is_refused() {
    assert_eq!(Command::of_word(""), Err(CommandError::EmptyWord));
}

#[test]
fn of_word_non_letters_are_refused() {
    assert_eq!(Command::of_word("PR1VMSG"), Err(CommandError::NotALetter));
    assert_eq!(Command::of_word("PRIV MSG"), Err(CommandError::NotALetter));
    assert_eq!(Command::of_word("@"), Err(CommandError::NotALetter));
    assert_eq!(Command::of_word("["), Err(CommandError::NotALetter));
    assert_eq!(Command::of_word("`"), Err(CommandError::NotALetter));
    assert_eq!(Command::of_word("{"), Err(CommandError::NotALetter));
    assert_eq!(Command::of_word("PING\u{e9}"), Err(CommandError::NotALetter));
    assert_eq!(Command::of_word("\u{fffd}"), Err(CommandError::NotALetter));
}

#[test]
fn of_number_bounds() {
    assert_eq!(Command::of_number(0), Ok(Command::Number(0)));
    assert_eq!(Command::of_number(999), Ok(Command::Number(999)));
    assert_eq!(Command::of_number(1000), Err(CommandError::NumberTooLarge));
    assert_eq!(Command::of_number(65535), Err(CommandError::NumberTooLarge));
}

#[test]
fn numbers_are_padded_to_three_digits() {
    assert_eq!(Command::of_number(0).unwrap().to_string(), "000");
    assert_eq!(Command::of_number(5).unwrap().to_string(), "005");
    assert_eq!(Command::of_number(9).unwrap().to_string(), "009");
    assert_eq!(Command::of_number(10).unwrap().to_string(), "010");
    assert_eq!(Command::of_number(42).unwrap().to_string(), "042");
    assert_eq!(Command::of_number(99).unwrap().to_string(), "099");
    assert_eq!(Command::of_number(100).unwrap().to_string(), "100");
    assert_eq!(Command::of_number(999).unwrap().to_string(), "999");
}

#[test]
fn every_number_up_to_999_has_three_digits() {
    let mut n: u16 = 0;
    while n <= 999 {
        let text = Command::of_number(n).unwrap().to_string();
        assert_eq!(text.len(), 3);
        assert_eq!(text.parse::<u16>().unwrap(), n);
        n += 1;
    }
}

#[test]
fn a_number_built_by_hand_is_written_in_full() {
    assert_eq!(Command::Number(1000).to_string(), "1000");
    assert_eq!(Command::Number(65535).to_string(), "65535");
}

#[test]
fn commands_are_equal_by_value() {
    assert_eq!(commands::PING(), commands::PING());
    assert_ne!(commands::PING(), commands::PONG());
    assert_ne!(Command::Word("PING".to_string()), Command::Number(1));
    assert_eq!(responses::RPL_WELCOME(), Command::Number(1));
    assert_eq!(responses::ERR_NICKNAMEINUSE(), Command::Number(433));
    assert_eq!(responses::ERR_USERSDONTMATCH(), Command::Number(502));
    assert_eq!(commands::WHOWAS().to_string(), "WHOWAS");
    assert_eq!(commands::ADMIN().to_string(), "ADMIN");
}
