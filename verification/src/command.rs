//! The verb of a message: a word of letters or a three-digit reply code.

use vstd::prelude::*;
use vstd::std_specs::cmp::PartialEqSpecImpl;
use vstd::utf8::*;
use crate::charset::{is_letter, lemma_run_bounds, run_length, ByteClass};
use crate::text::{ascii_text, lemma_decode_ascii};

verus! {

/// An IRC command: a sequence of letters, or a numeric reply code.
///
/// The variants are public, so a value can be built without validation;
/// `of_word` and `of_number` build only well-formed ones, and `is_valid`
/// says which those are.
#[derive(Debug, Clone, Eq)]
pub enum Command {
    Word(String),
    Number(u16),
}

/// The mathematical value of a `Command`.
pub enum CommandView {
    Word(Seq<char>),
    Number(u16),
}

/// Why a command could not be built.
#[derive(Debug, Clone, Copy, PartialEq, Eq)]
pub enum CommandError {
    /// The word has no characters.
    EmptyWord,
    /// The word has a character outside `A`-`Z` and `a`-`z`.
    NotALetter,
    /// The number is above 999.
    NumberTooLarge,
}

/// The largest reply code: the largest number of three decimal digits.
pub const MAX_NUMBER: u16 = 999;

/// A letter `A`-`Z` or `a`-`z`.
pub open spec fn letter(c: char) -> bool {
    ('A' <= c <= 'Z') || ('a' <= c <= 'z')
}

/// Whether every character of `text` is a letter.
pub open spec fn all_letters(text: Seq<char>) -> bool {
    forall|i: int| 0 <= i < text.len() ==> letter(#[trigger] text[i])
}

/// The character of a decimal digit.
pub open spec fn digit_char(d: int) -> char
    recommends
        0 <= d <= 9,
{
    ((0x30 + d) as u8) as char
}

/// The decimal digits of `n`, without leading zeros.
pub open spec fn decimal_text(n: nat) -> Seq<char>
    decreases n,
{
    if n < 10 {
        seq![digit_char(n as int)]
    } else {
        decimal_text(n / 10).push(digit_char((n % 10) as int))
    }
}

/// The decimal digits of `n`, padded with zeros on the left to three
/// characters.
pub open spec fn padded_decimal_text(n: nat) -> Seq<char> {
    if n < 10 {
        seq!['0', '0'] + decimal_text(n)
    } else if n < 100 {
        seq!['0'] + decimal_text(n)
    } else {
        decimal_text(n)
    }
}

impl CommandView {
    /// A word of one or more letters, or a number of at most three digits.
    pub open spec fn is_valid(self) -> bool {
        match self {
            CommandView::Word(text) => text.len() > 0 && all_letters(text),
            CommandView::Number(n) => n <= MAX_NUMBER,
        }
    }

    /// The command as it stands on the wire: a word as it is, a number in
    /// decimal digits, padded with zeros to three.
    pub open spec fn wire_text(self) -> Seq<char> {
        match self {
            CommandView::Word(text) => text,
            CommandView::Number(n) => padded_decimal_text(n as nat),
        }
    }

    /// The result of building a word command from `text`.
    pub open spec fn word(text: Seq<char>) -> Result<CommandView, CommandError> {
        if text.len() == 0 {
            Err(CommandError::EmptyWord)
        } else if !all_letters(text) {
            Err(CommandError::NotALetter)
        } else {
            Ok(CommandView::Word(text))
        }
    }

    /// The result of building a numeric command from `number`.
    pub open spec fn number(number: u16) -> Result<CommandView, CommandError> {
        if number > MAX_NUMBER {
            Err(CommandError::NumberTooLarge)
        } else {
            Ok(CommandView::Number(number))
        }
    }
}

impl View for Command {
    type V = CommandView;

    open spec fn view(&self) -> CommandView {
        match self {
            Command::Word(word) => CommandView::Word(word@),
            Command::Number(number) => CommandView::Number(*number),
        }
    }
}

impl PartialEq for Command {
    fn eq(&self, other: &Self) -> (r: bool) {
        match (self, other) {
            (Command::Word(a), Command::Word(b)) => *a == *b,
            (Command::Number(a), Command::Number(b)) => *a == *b,
            _ => false,
        }
    }
}

impl PartialEqSpecImpl for Command {
    open spec fn obeys_eq_spec() -> bool {
        true
    }

    open spec fn eq_spec(&self, other: &Self) -> bool {
        self@ == other@
    }
}

/// A text of letters is ASCII, and its encoding is the same letters as
/// bytes.
pub proof fn lemma_letters_encode(text: Seq<char>)
    requires
        all_letters(text),
    ensures
        encode_utf8(text).len() == text.len(),
        forall|i: int| 0 <= i < text.len() ==> is_letter(#[trigger] encode_utf8(text)[i]),
{
    assert(is_ascii_chars(text)) by {
        assert forall|i: int| 0 <= i < text.len() implies '\0' <= #[trigger] text[i]
            <= '\u{7f}' by {
            assert(letter(text[i]));
        }
    }
    is_ascii_chars_encode_utf8(text);
    assert forall|i: int| 0 <= i < text.len() implies is_letter(
        #[trigger] encode_utf8(text)[i],
    ) by {
        assert(letter(text[i]));
        assert(text[i] as u8 == encode_utf8(text)[i]);
    }
}

/// A text whose encoding is letters only is itself letters only.
pub proof fn lemma_letter_bytes_decode(text: Seq<char>)
    requires
        forall|i: int|
            0 <= i < encode_utf8(text).len() ==> is_letter(#[trigger] encode_utf8(text)[i]),
    ensures
        all_letters(text),
        encode_utf8(text).len() == text.len(),
{
    let bytes = encode_utf8(text);
    assert forall|i: int| 0 <= i < bytes.len() implies #[trigger] bytes[i] < 0x80 by {
        assert(is_letter(bytes[i]));
    }
    lemma_decode_ascii(bytes);
    encode_utf8_decode_utf8(text);
    assert(text == ascii_text(bytes));
    assert forall|i: int| 0 <= i < text.len() implies letter(#[trigger] text[i]) by {
        assert(is_letter(bytes[i]));
        assert(text[i] == bytes[i] as char);
    }
}

/// The one-character string of a decimal digit.
pub(crate) fn digit_str(d: u8) -> (s: &'static str)
    requires
        d <= 9,
    ensures
        s@ == seq![digit_char(d as int)],
{
    proof {
        reveal_strlit("0");
        reveal_strlit("1");
        reveal_strlit("2");
        reveal_strlit("3");
        reveal_strlit("4");
        reveal_strlit("5");
        reveal_strlit("6");
        reveal_strlit("7");
        reveal_strlit("8");
        reveal_strlit("9");
    }
    let s = match d {
        0 => "0",
        1 => "1",
        2 => "2",
        3 => "3",
        4 => "4",
        5 => "5",
        6 => "6",
        7 => "7",
        8 => "8",
        _ => "9",
    };
    assert(s@ =~= seq![digit_char(d as int)]);
    s
}

/// Appends the decimal digits of `n` to `out`.
pub fn append_decimal(out: &mut String, n: u16)
    ensures
        final(out)@ == old(out)@ + decimal_text(n as nat),
    decreases n,
{
    if n >= 10 {
        append_decimal(out, n / 10);
    }
    out.append(digit_str((n % 10) as u8));
    assert(out@ =~= old(out)@ + decimal_text(n as nat));
}

/// A word of letters is accepted as a command, and is displayed unchanged.
pub proof fn lemma_word_is_displayed_unchanged(text: Seq<char>)
    requires
        text.len() > 0,
        all_letters(text),
    ensures
        CommandView::word(text) == Ok::<CommandView, CommandError>(CommandView::Word(text)),
        CommandView::Word(text).is_valid(),
        CommandView::Word(text).wire_text() == text,
{
}

/// A number up to 999 is accepted as a command and displayed as its three
/// decimal digits, zeros included; a larger number is refused.
pub proof fn lemma_number_is_displayed_in_three_digits(n: u16)
    ensures
        n <= 999 ==> CommandView::number(n) == Ok::<CommandView, CommandError>(
            CommandView::Number(n),
        ),
        n <= 999 ==> CommandView::Number(n).is_valid(),
        n <= 999 ==> CommandView::Number(n).wire_text() == seq![
            digit_char(n as int / 100),
            digit_char(n as int / 10 % 10),
            digit_char(n as int % 10),
        ],
        n > 999 ==> CommandView::number(n) == Err::<CommandView, CommandError>(
            CommandError::NumberTooLarge,
        ),
{
    reveal_with_fuel(decimal_text, 3);
    if n <= 999 {
        assert(CommandView::Number(n).wire_text() =~= seq![
            digit_char(n as int / 100),
            digit_char(n as int / 10 % 10),
            digit_char(n as int % 10),
        ]);
    }
}

impl Command {
    /// Whether the command is well-formed: a word of one or more letters,
    /// or a number of at most three digits.
    pub fn is_valid(&self) -> (r: bool)
        ensures
            r == self@.is_valid(),
    {
        match self {
            Command::Word(word) => {
                let bytes = word.as_str().as_bytes();
                let n = run_length(bytes, ByteClass::Letter);
                proof {
                    lemma_run_bounds(bytes@, ByteClass::Letter);
                    if n == bytes@.len() {
                        assert(bytes@.take(n as int) =~= bytes@);
                        lemma_letter_bytes_decode(word@);
                    } else if all_letters(word@) {
                        lemma_letters_encode(word@);
                    }
                }
                n > 0 && n == bytes.len()
            },
            Command::Number(number) => *number <= MAX_NUMBER,
        }
    }

    /// Builds the command of a word. The word must be one or more letters
    /// `A`-`Z`, `a`-`z`; it need not be a command that any RFC names.
    pub fn of_word(word: &str) -> (r: Result<Command, CommandError>)
        ensures
            match r {
                Ok(c) => CommandView::word(word@) == Ok::<CommandView, CommandError>(c@),
                Err(e) => CommandView::word(word@) == Err::<CommandView, CommandError>(e),
            },
    {
        let bytes = word.as_bytes();
        if bytes.len() == 0 {
            proof {
                if word@.len() > 0 {
                    encode_utf8_first_scalar(word@);
                }
            }
            return Err(CommandError::EmptyWord);
        }
        let mut i: usize = 0;
        while i < bytes.len()
            invariant
                bytes@ == encode_utf8(word@),
                0 < bytes@.len(),
                i <= bytes@.len(),
                forall|k: int| 0 <= k < i ==> is_letter(#[trigger] bytes@[k]),
            decreases bytes@.len() - i,
        {
            if !nom::is_alphabetic(bytes[i]) {
                proof {
                    if all_letters(word@) {
                        lemma_letters_encode(word@);
                        assert(is_letter(bytes@[i as int]));
                    }
                }
                return Err(CommandError::NotALetter);
            }
            i = i + 1;
        }
        proof {
            lemma_letter_bytes_decode(word@);
        }
        Ok(Command::Word(word.to_owned()))
    }

    /// The command as it stands on the wire: a word as it is, a number
    /// padded with zeros to three digits.
    pub fn to_string(&self) -> (s: String)
        ensures
            s@ == self@.wire_text(),
    {
        match self {
            Command::Word(word) => word.clone(),
            Command::Number(number) => {
                let mut s = String::new();
                if *number < 10 {
                    proof {
                        reveal_strlit("00");
                    }
                    s.append("00");
                } else if *number < 100 {
                    proof {
                        reveal_strlit("0");
                    }
                    s.append("0");
                }
                append_decimal(&mut s, *number);
                assert(s@ =~= padded_decimal_text(*number as nat));
                s
            },
        }
    }

    /// Builds the command of a reply code, which must be at most 999.
    pub fn of_number(number: u16) -> (r: Result<Command, CommandError>)
        ensures
            match r {
                Ok(c) => CommandView::number(number) == Ok::<CommandView, CommandError>(c@),
                Err(e) => CommandView::number(number) == Err::<CommandView, CommandError>(e),
            },
    {
        if number > MAX_NUMBER {
            Err(CommandError::NumberTooLarge)
        } else {
            Ok(Command::Number(number))
        }
    }
}

} // verus!
