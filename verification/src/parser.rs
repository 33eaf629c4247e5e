//! The parser: the grammar of a line, run on the bytes received.

use vstd::prelude::*;
use vstd::slice::{slice_subrange, slice_to_vec};
use vstd::string::StringExecFns;
use vstd::utf8::*;
use crate::charset::{
    all_of, lemma_run_bounds, run, run_length, ByteClass, AT, BANG, COLON, CR, LF, SPACE,
};
use crate::command::{all_letters, append_decimal, decimal_text, letter, Command, CommandView};
use crate::grammar;
use crate::message::{texts, Message, MessageView, Prefix, UserInfo};
use crate::text::{copy_to_string, decodes_to, lemma_decode_ascii, to_text};

verus! {

/// A line that does not follow the grammar. It keeps the bytes that were
/// handed to the parser.
#[derive(Debug, Clone, PartialEq, Eq)]
pub struct ParseError {
    input: Vec<u8>,
}

impl View for ParseError {
    type V = Seq<u8>;

    closed spec fn view(&self) -> Seq<u8> {
        self.input@
    }
}

/// The decimal numbers of the bytes from index `from` on, separated by a
/// comma and a space.
pub open spec fn byte_list_text(bytes: Seq<u8>, from: int) -> Seq<char>
    decreases bytes.len() - from,
{
    if 0 <= from < bytes.len() {
        let number = decimal_text(bytes[from] as nat) + byte_list_text(bytes, from + 1);
        if from == 0 {
            number
        } else {
            seq![',', ' '] + number
        }
    } else {
        Seq::empty()
    }
}

/// What is said of an input that did not parse: the input as text where it
/// is well-formed UTF-8, and else the list of its bytes in brackets.
pub open spec fn failure_text(input: Seq<u8>) -> Seq<char> {
    if valid_utf8(input) {
        "Failed to parse line: ["@ + decode_utf8(input) + "]"@
    } else {
        "Failed to parse line and could not interpret as UTF-8, raw bytes: [["@ + byte_list_text(
            input,
            0,
        ) + "]]"@
    }
}

impl ParseError {
    /// The bytes that were handed to the parser.
    pub fn input(&self) -> (r: &Vec<u8>)
        ensures
            r@ == self@,
    {
        &self.input
    }

    /// A short description of the error.
    pub fn description(&self) -> (r: &'static str)
        ensures
            r@ == "failed to parse IRC message from line"@,
    {
        "failed to parse IRC message from line"
    }

    /// The error as a sentence that shows the input.
    pub fn to_string(&self) -> (s: String)
        ensures
            s@ == failure_text(self@),
    {
        match to_text(self.input.as_slice()) {
            Some(text) => {
                let mut s = String::from_str("Failed to parse line: [");
                s.append(text.as_str());
                s.append("]");
                s
            },
            None => {
                let mut s = String::from_str(
                    "Failed to parse line and could not interpret as UTF-8, raw bytes: [[",
                );
                let ghost head = s@;
                let mut i: usize = 0;
                while i < self.input.len()
                    invariant
                        i <= self.input@.len(),
                        s@ + byte_list_text(self.input@, i as int) == head + byte_list_text(
                            self.input@,
                            0,
                        ),
                    decreases self.input@.len() - i,
                {
                    let ghost before = s@;
                    if i > 0 {
                        proof {
                            reveal_strlit(", ");
                        }
                        s.append(", ");
                    }
                    append_decimal(&mut s, self.input[i] as u16);
                    assert(s@ + byte_list_text(self.input@, i + 1) =~= before + byte_list_text(
                        self.input@,
                        i as int,
                    ));
                    i = i + 1;
                }
                assert(s@ + byte_list_text(self.input@, i as int) =~= s@);
                s.append("]]");
                s
            },
        }
    }
}

/// Whether what a parser returned, a value and the input left behind it, is
/// what the grammar reads.
pub open spec fn reads<T: View>(
    found: Option<(T, &[u8])>,
    expected: Option<(T::V, Seq<u8>)>,
) -> bool {
    match found {
        Some((value, rest)) => expected == Some((value@, rest@)),
        None => expected is None,
    }
}

/// What parsing a line gives: the message and the bytes behind its line
/// terminator, or the input itself where it does not follow the grammar.
pub open spec fn parse_result(input: Seq<u8>) -> Result<(MessageView, Seq<u8>), Seq<u8>> {
    match grammar::message(input) {
        Some(found) => Ok(found),
        None => Err(input),
    }
}

/// Takes the byte `b` from the head of `input`.
pub fn tag(input: &[u8], b: u8) -> (r: Option<&[u8]>)
    ensures
        r is Some <==> grammar::starts_with(input@, b),
        r matches Some(rest) ==> rest@ == input@.skip(1),
{
    if input.len() > 0 && input[0] == b {
        Some(slice_subrange(input, 1, input.len()))
    } else {
        None
    }
}

/// Takes the longest run of `class` from the head of `input`, as text.
pub fn token(input: &[u8], class: ByteClass) -> (r: Option<(String, &[u8])>)
    ensures
        reads(r, grammar::token(input@, class)),
{
    let n = run_length(input, class);
    if n == 0 {
        return None;
    }
    match to_text(slice_subrange(input, 0, n)) {
        Some(text) => Some((text, slice_subrange(input, n, input.len()))),
        None => None,
    }
}

/// A nickname.
pub fn nickname(input: &[u8]) -> (r: Option<(String, &[u8])>)
    ensures
        reads(r, grammar::nickname(input@)),
{
    token(input, ByteClass::Nickname)
}

/// A user name.
pub fn username(input: &[u8]) -> (r: Option<(String, &[u8])>)
    ensures
        reads(r, grammar::username(input@)),
{
    token(input, ByteClass::Username)
}

/// A host.
pub fn host(input: &[u8]) -> (r: Option<(String, &[u8])>)
    ensures
        reads(r, grammar::host(input@)),
{
    token(input, ByteClass::Host)
}

/// `nickname "!" username "@" host`
pub fn nick_user_host(input: &[u8]) -> (r: Option<(UserInfo, &[u8])>)
    ensures
        reads(r, grammar::nick_user_host(input@)),
{
    let (nick, rest) = match nickname(input) {
        Some(found) => found,
        None => return None,
    };
    let rest = match tag(rest, BANG) {
        Some(rest) => rest,
        None => return None,
    };
    let (user, rest) = match username(rest) {
        Some(found) => found,
        None => return None,
    };
    let rest = match tag(rest, AT) {
        Some(rest) => rest,
        None => return None,
    };
    match host(rest) {
        Some((host, rest)) => Some((UserInfo::NickUserHost(nick, user, host), rest)),
        None => None,
    }
}

/// `nickname "@" host`
pub fn nick_host(input: &[u8]) -> (r: Option<(UserInfo, &[u8])>)
    ensures
        reads(r, grammar::nick_host(input@)),
{
    let (nick, rest) = match nickname(input) {
        Some(found) => found,
        None => return None,
    };
    let rest = match tag(rest, AT) {
        Some(rest) => rest,
        None => return None,
    };
    match host(rest) {
        Some((host, rest)) => Some((UserInfo::NickHost(nick, host), rest)),
        None => None,
    }
}

/// `nickname`
pub fn nick_only(input: &[u8]) -> (r: Option<(UserInfo, &[u8])>)
    ensures
        reads(r, grammar::nick_only(input@)),
{
    match nickname(input) {
        Some((nick, rest)) => Some((UserInfo::Nick(nick), rest)),
        None => None,
    }
}

/// The origin of a user, in the first of its three forms that fits.
pub fn user_info(input: &[u8]) -> (r: Option<(UserInfo, &[u8])>)
    ensures
        reads(r, grammar::user_info(input@)),
{
    match nick_user_host(input) {
        Some(found) => Some(found),
        None => match nick_host(input) {
            Some(found) => Some(found),
            None => nick_only(input),
        },
    }
}

/// A user's origin and the space behind it.
pub fn user_prefix(input: &[u8]) -> (r: Option<(Prefix, &[u8])>)
    ensures
        reads(r, grammar::user_prefix(input@)),
{
    match user_info(input) {
        Some((user, rest)) => match tag(rest, SPACE) {
            Some(rest) => Some((Prefix::User(user), rest)),
            None => None,
        },
        None => None,
    }
}

/// A host and the space behind it.
pub fn server_prefix(input: &[u8]) -> (r: Option<(Prefix, &[u8])>)
    ensures
        reads(r, grammar::server_prefix(input@)),
{
    match host(input) {
        Some((host, rest)) => match tag(rest, SPACE) {
            Some(rest) => Some((Prefix::Server(host), rest)),
            None => None,
        },
        None => None,
    }
}

/// The prefix of a line: a colon, the origin and one space.
pub fn prefix(input: &[u8]) -> (r: Option<(Prefix, &[u8])>)
    ensures
        reads(r, grammar::prefix(input@)),
{
    match tag(input, COLON) {
        Some(rest) => match user_prefix(rest) {
            Some(found) => Some(found),
            None => server_prefix(rest),
        },
        None => None,
    }
}

/// The text of a string of letters is made of letters.
pub proof fn lemma_letter_text(bytes: Seq<u8>)
    requires
        all_of(bytes, ByteClass::Letter),
    ensures
        valid_utf8(bytes),
        decode_utf8(bytes).len() == bytes.len(),
        all_letters(decode_utf8(bytes)),
{
    assert forall|i: int| 0 <= i < bytes.len() implies #[trigger] bytes[i] < 0x80 by {
        assert(ByteClass::Letter.has(bytes[i]));
    }
    lemma_decode_ascii(bytes);
    assert forall|i: int| 0 <= i < bytes.len() implies letter(
        #[trigger] decode_utf8(bytes)[i],
    ) by {
        assert(ByteClass::Letter.has(bytes[i]));
    }
}

/// A string of up to three digits denotes a number up to 999.
pub proof fn lemma_digits_value_bound(digits: Seq<u8>)
    requires
        digits.len() <= 3,
        all_of(digits, ByteClass::Digit),
    ensures
        digits.len() == 0 ==> grammar::digits_value(digits) == 0,
        digits.len() == 1 ==> grammar::digits_value(digits) <= 9,
        digits.len() == 2 ==> grammar::digits_value(digits) <= 99,
        grammar::digits_value(digits) <= 999,
    decreases digits.len(),
{
    if digits.len() > 0 {
        let front = digits.drop_last();
        assert forall|i: int| 0 <= i < front.len() implies ByteClass::Digit.has(
            #[trigger] front[i],
        ) by {
            assert(front[i] == digits[i]);
        }
        lemma_digits_value_bound(front);
        assert(ByteClass::Digit.has(digits[digits.len() - 1]));
    }
}

/// The command of a run of letters.
fn make_word(letters: String) -> (r: Command)
    requires
        letters@.len() > 0,
        all_letters(letters@),
    ensures
        r@ == CommandView::Word(letters@),
        r@.is_valid(),
{
    Command::Word(letters)
}

/// The command of a run of one to three digits.
fn make_number(digits: &[u8]) -> (r: Command)
    requires
        1 <= digits@.len() <= 3,
        all_of(digits@, ByteClass::Digit),
    ensures
        r@ == CommandView::Number(grammar::digits_value(digits@) as u16),
        r@.is_valid(),
{
    let mut value: u16 = 0;
    let mut i: usize = 0;
    while i < digits.len()
        invariant
            i <= digits@.len() <= 3,
            all_of(digits@, ByteClass::Digit),
            value == grammar::digits_value(digits@.take(i as int)),
            value <= 999,
        decreases digits@.len() - i,
    {
        proof {
            let next = digits@.take(i + 1);
            assert(next.drop_last() =~= digits@.take(i as int));
            assert(ByteClass::Digit.has(digits@[i as int]));
            assert forall|k: int| 0 <= k < next.len() implies ByteClass::Digit.has(
                #[trigger] next[k],
            ) by {
                assert(ByteClass::Digit.has(digits@[k]));
            }
            lemma_digits_value_bound(next);
            lemma_digits_value_bound(digits@.take(i as int));
        }
        value = value * 10 + (digits[i] - 0x30) as u16;
        i = i + 1;
    }
    assert(digits@.take(i as int) =~= digits@);
    Command::Number(value)
}

/// A command of letters.
pub fn word_command(input: &[u8]) -> (r: Option<(Command, &[u8])>)
    ensures
        reads(r, grammar::word_command(input@)),
        r matches Some((verb, _)) ==> verb@.is_valid(),
{
    match token(input, ByteClass::Letter) {
        Some((word, rest)) => {
            proof {
                lemma_run_bounds(input@, ByteClass::Letter);
                lemma_letter_text(input@.take(run(input@, ByteClass::Letter) as int));
            }
            Some((make_word(word), rest))
        },
        None => None,
    }
}

/// A command of one to three digits.
pub fn numeric_command(input: &[u8]) -> (r: Option<(Command, &[u8])>)
    ensures
        reads(r, grammar::numeric_command(input@)),
        r matches Some((verb, _)) ==> verb@.is_valid(),
{
    let n = run_length(input, ByteClass::Digit);
    if n == 0 || n > 3 {
        return None;
    }
    proof {
        lemma_run_bounds(input@, ByteClass::Digit);
    }
    let verb = make_number(slice_subrange(input, 0, n));
    Some((verb, slice_subrange(input, n, input.len())))
}

/// The command of a line: a word, or else a number.
pub fn command(input: &[u8]) -> (r: Option<(Command, &[u8])>)
    ensures
        reads(r, grammar::command(input@)),
        r matches Some((verb, _)) ==> verb@.is_valid(),
{
    match word_command(input) {
        Some(found) => Some(found),
        None => numeric_command(input),
    }
}

/// A middle parameter. Its text holds no space.
pub fn param(input: &[u8]) -> (r: Option<(String, &[u8])>)
    ensures
        reads(r, grammar::param(input@)),
        r matches Some((text, rest)) ==> {
            &&& decodes_to(input@.take(run(input@, ByteClass::Middle) as int), text@)
            &&& !text@.contains(' ')
            &&& rest@.len() < input@.len()
        },
{
    let n = run_length(input, ByteClass::Middle);
    if n == 0 {
        return None;
    }
    let bytes = slice_subrange(input, 0, n);
    let text = copy_to_string(bytes);
    proof {
        lemma_run_bounds(input@, ByteClass::Middle);
        if text@.contains(' ') {
            assert(text@.contains(SPACE as char));
            assert(bytes@.contains(SPACE));
            let k = choose|k: int| 0 <= k < bytes@.len() && bytes@[k] == SPACE;
            assert(ByteClass::Middle.has(bytes@[k]));
        }
    }
    Some((text, slice_subrange(input, n, input.len())))
}

/// Everything up to the end of the line.
pub fn trailing(input: &[u8]) -> (r: (String, &[u8]))
    ensures
        (r.0@, r.1@) == grammar::trailing(input@),
        decodes_to(input@.take(run(input@, ByteClass::Trailing) as int), r.0@),
{
    let n = run_length(input, ByteClass::Trailing);
    let text = copy_to_string(slice_subrange(input, 0, n));
    (text, slice_subrange(input, n, input.len()))
}

/// A trailing parameter: a colon and everything up to the end of the line.
pub fn final_param(input: &[u8]) -> (r: Option<(String, &[u8])>)
    ensures
        reads(r, grammar::final_param(input@)),
        r matches Some((text, _)) ==> decodes_to(
            input@.skip(1).take(run(input@.skip(1), ByteClass::Trailing) as int),
            text@,
        ),
{
    match tag(input, COLON) {
        Some(rest) => Some(trailing(rest)),
        None => None,
    }
}

/// The parameters of a line, each decoded from its bytes. None of them but
/// the last holds a space.
pub fn params(input: &[u8]) -> (r: (Vec<String>, &[u8]))
    ensures
        (texts(r.0@), r.1@) == grammar::params(input@),
        r.0@.len() == grammar::param_bytes(input@).len(),
        forall|i: int|
            0 <= i < r.0@.len() ==> decodes_to(
                grammar::param_bytes(input@)[i],
                (#[trigger] r.0@[i])@,
            ),
        forall|i: int| 0 <= i < r.0@.len() - 1 ==> !(#[trigger] r.0@[i])@.contains(' '),
{
    let mut arguments: Vec<String> = Vec::new();
    let mut rest = input;
    let ghost mut taken: Seq<Seq<u8>> = Seq::empty();
    assert(taken + grammar::param_bytes(rest@) =~= grammar::param_bytes(input@));
    loop
        invariant_except_break
            grammar::params(input@) == (
                texts(arguments@) + grammar::params(rest@).0,
                grammar::params(rest@).1,
            ),
            grammar::param_bytes(input@) == taken + grammar::param_bytes(rest@),
            forall|i: int| 0 <= i < arguments@.len() ==> !(#[trigger] arguments@[i])@.contains(' '),
        invariant
            taken.len() == arguments@.len(),
            forall|i: int|
                0 <= i < arguments@.len() ==> decodes_to(taken[i], (#[trigger] arguments@[i])@),
        ensures
            (texts(arguments@), rest@) == grammar::params(input@),
            grammar::param_bytes(input@) == taken,
            forall|i: int|
                0 <= i < arguments@.len() - 1 ==> !(#[trigger] arguments@[i])@.contains(' '),
        decreases rest@.len(),
    {
        let ghost before = arguments@;
        let after = match tag(rest, SPACE) {
            Some(after) => after,
            None => {
                assert(texts(arguments@) + Seq::<Seq<char>>::empty() =~= texts(arguments@));
                assert(taken + Seq::<Seq<u8>>::empty() =~= taken);
                break ;
            },
        };
        match final_param(after) {
            Some((last, left)) => {
                arguments.push(last);
                rest = left;
                proof {
                    let bytes = after@.skip(1).take(
                        run(after@.skip(1), ByteClass::Trailing) as int,
                    );
                    assert(grammar::param_bytes(input@) =~= taken + seq![bytes]);
                    taken = taken.push(bytes);
                    assert(texts(arguments@) =~= texts(before) + seq![last@]);
                }
                break ;
            },
            None => {},
        }
        match param(after) {
            Some((middle, left)) => {
                arguments.push(middle);
                proof {
                    let bytes = after@.take(run(after@, ByteClass::Middle) as int);
                    assert(taken + (seq![bytes] + grammar::param_bytes(left@)) =~= taken.push(
                        bytes,
                    ) + grammar::param_bytes(left@));
                    taken = taken.push(bytes);
                    assert(texts(arguments@) =~= texts(before) + seq![middle@]);
                    assert(texts(before) + (seq![middle@] + grammar::params(left@).0) =~= texts(
                        arguments@,
                    ) + grammar::params(left@).0);
                }
                rest = left;
            },
            None => {
                assert(texts(arguments@) + Seq::<Seq<char>>::empty() =~= texts(arguments@));
                assert(taken + Seq::<Seq<u8>>::empty() =~= taken);
                break ;
            },
        }
    }
    (arguments, rest)
}

/// Whether each of the arguments is what lenient decoding makes of its
/// bytes in the line.
pub open spec fn arguments_decode(line: Seq<u8>, arguments: Seq<Seq<char>>) -> bool {
    &&& arguments.len() == grammar::argument_bytes(line).len()
    &&& forall|i: int|
        0 <= i < arguments.len() ==> decodes_to(
            grammar::argument_bytes(line)[i],
            #[trigger] arguments[i],
        )
}

/// A whole line. The message that is read is well-formed, and its arguments
/// are decoded from their bytes in the line.
pub fn message(input: &[u8]) -> (r: Option<(Message, &[u8])>)
    ensures
        reads(r, grammar::message(input@)),
        r matches Some((found, _)) ==> found@.is_well_formed() && arguments_decode(
            input@,
            found@.arguments,
        ),
{
    let (origin, rest) = match prefix(input) {
        Some(found) => found,
        None => (Prefix::Absent, input),
    };
    let (verb, rest) = match command(rest) {
        Some(found) => found,
        None => return None,
    };
    let (arguments, rest) = params(rest);
    let ghost behind = rest@;
    let rest = match tag(rest, CR) {
        Some(rest) => rest,
        None => return None,
    };
    let rest = match tag(rest, LF) {
        Some(rest) => rest,
        None => return None,
    };
    assert(rest@ =~= behind.skip(2));
    Some((Message::new(origin, verb, arguments), rest))
}

/// Parses the line at the head of `input`. The result is the message and
/// the bytes behind the line, or an error that holds the whole input.
pub fn parse_message(input: &[u8]) -> (r: Result<(Message, &[u8]), ParseError>)
    ensures
        match r {
            Ok((found, rest)) => parse_result(input@) == Ok::<
                (MessageView, Seq<u8>),
                Seq<u8>,
            >((found@, rest@)) && found@.is_well_formed() && arguments_decode(
                input@,
                found@.arguments,
            ),
            Err(error) => parse_result(input@) == Err::<(MessageView, Seq<u8>), Seq<u8>>(error@),
        },
{
    match message(input) {
        Some(found) => Ok(found),
        None => Err(ParseError { input: slice_to_vec(input) }),
    }
}

impl Message {
    /// Parses the line at the head of `input`; see `parse_message`.
    pub fn parse(input: &[u8]) -> (r: Result<(Message, &[u8]), ParseError>)
        ensures
            match r {
                Ok((found, rest)) => parse_result(input@) == Ok::<
                    (MessageView, Seq<u8>),
                    Seq<u8>,
                >((found@, rest@)) && found@.is_well_formed() && arguments_decode(
                    input@,
                    found@.arguments,
                ),
                Err(error) => parse_result(input@) == Err::<(MessageView, Seq<u8>), Seq<u8>>(
                    error@,
                ),
            },
    {
        parse_message(input)
    }
}

} // verus!
