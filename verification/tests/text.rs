use irc::command::append_decimal;
use irc::parser::{param, trailing};
use irc::text::to_text;

#[test]
fn well_formed_bytes_are_decoded() {
    assert_eq!(to_text(b""), Some("".to_string()));
    assert_eq!(to_text(b"Hey there"), Some("Hey there".to_string()));
    assert_eq!(to_text("\u{e9}t\u{e9} \u{1f600}".as_bytes()), Some("\u{e9}t\u{e9} \u{1f600}".to_string()));
    assert_eq!(trailing(b""), ("".to_string(), &b""[..]));
    assert_eq!(trailing(b"Hey there\r\n"), ("Hey there".to_string(), &b"\r\n"[..]));
    assert_eq!(
        trailing("\u{e9}t\u{e9} \u{1f600}".as_bytes()),
        ("\u{e9}t\u{e9} \u{1f600}".to_string(), &b""[..])
    );
    assert_eq!(param("\u{e9}t\u{e9} x".as_bytes()), Some(("\u{e9}t\u{e9}".to_string(), &b" x"[..])));
}

#[test]
fn ill_formed_bytes_are_refused_or_repaired() {
    assert_eq!(to_text(b"Hey there \xc3"), None);
    assert_eq!(to_text(b"\xff"), None);
    assert_eq!(to_text(b"\xed\xa0\x80"), None);
    assert_eq!(to_text(b"\xc0\xaf"), None);
    assert_eq!(trailing(b"Hey there \xc3"), ("Hey there \u{fffd}".to_string(), &b""[..]));
    assert_eq!(param(b"\xff"), Some(("\u{fffd}".to_string(), &b""[..])));
    assert_eq!(
        trailing(b"Hello \xF0\x90\x80World\r\n"),
        ("Hello \u{fffd}World".to_string(), &b"\r\n"[..])
    );
}

#[test]
fn decimal_digits() {
    let mut s = String::from("n=");
    append_decimal(&mut s, 0);
    append_decimal(&mut s, 7);
    append_decimal(&mut s, 10);
    append_decimal(&mut s, 255);
    append_decimal(&mut s, 65535);
    assert_eq!(s, "n=071025565535");
}
