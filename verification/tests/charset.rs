use irc::charset::{
    is_host_char, is_nickname_char, is_special, is_username_char, not_space, run_length,
    trailing_char, ByteClass,
};

#[test]
fn byte_classes() {
    for c in 0..=255u8 {
        let letter = c.is_ascii_alphabetic();
        let digit = c.is_ascii_digit();
        let special = b"[]\\`_^{|}".contains(&c);
        assert_eq!(ByteClass::Letter.contains(c), letter);
        assert_eq!(ByteClass::Digit.contains(c), digit);
        assert_eq!(is_special(c), special);
        assert_eq!(is_nickname_char(c), letter || digit || special || c == b'-');
        assert_eq!(ByteClass::Nickname.contains(c), is_nickname_char(c));
        assert_eq!(is_host_char(c), letter || digit || c == b'.' || c == b':' || c == b'-');
        assert_eq!(ByteClass::Host.contains(c), is_host_char(c));
        assert_eq!(not_space(c), c != 0 && c != b'\r' && c != b'\n' && c != b' ');
        assert_eq!(ByteClass::Middle.contains(c), not_space(c));
        assert_eq!(trailing_char(c), c != 0 && c != b'\r' && c != b'\n');
        assert_eq!(ByteClass::Trailing.contains(c), trailing_char(c));
        assert_eq!(
            is_username_char(c),
            c != 0 && c != b'\r' && c != b'\n' && c != b' ' && c != b'@'
        );
        assert_eq!(ByteClass::Username.contains(c), is_username_char(c));
    }
}

#[test]
fn runs() {
    assert_eq!(run_length(b"", ByteClass::Letter), 0);
    assert_eq!(run_length(b"abc", ByteClass::Letter), 3);
    assert_eq!(run_length(b"abc1", ByteClass::Letter), 3);
    assert_eq!(run_length(b"1abc", ByteClass::Letter), 0);
    assert_eq!(run_length(b"123 4", ByteClass::Digit), 3);
    assert_eq!(run_length(b"a b\r\n", ByteClass::Trailing), 3);
    assert_eq!(run_length(b"a b\r\n", ByteClass::Middle), 1);
}
