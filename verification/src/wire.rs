//! What the wire can carry: the messages whose line reads back as the
//! message.

use vstd::prelude::*;
use vstd::utf8::*;
use crate::charset::{all_of, lemma_run_bounds, run_length, ByteClass, COLON, CR, LF, NUL, SPACE};
use crate::message::{
    is_trailing, Message, MessageView, Prefix, PrefixView, UserInfo, UserInfoView,
};
use crate::text::{contains_ascii, lemma_ascii_byte_in_encoding, lemma_encode_scalar_bytes};

verus! {

/// Whether the encoding of `text` is one or more bytes of `class`.
pub open spec fn spelled_in(text: Seq<char>, class: ByteClass) -> bool {
    encode_utf8(text).len() > 0 && all_of(encode_utf8(text), class)
}

impl UserInfoView {
    /// Whether the grammar can carry the user's origin: a nickname of
    /// nickname bytes, a user name of user name bytes, a host of host
    /// bytes, none of them empty.
    pub open spec fn is_wire_safe(self) -> bool {
        match self {
            UserInfoView::Nick(nick) => spelled_in(nick, ByteClass::Nickname),
            UserInfoView::NickHost(nick, host) => {
                &&& spelled_in(nick, ByteClass::Nickname)
                &&& spelled_in(host, ByteClass::Host)
            },
            UserInfoView::NickUserHost(nick, user, host) => {
                &&& spelled_in(nick, ByteClass::Nickname)
                &&& spelled_in(user, ByteClass::Username)
                &&& spelled_in(host, ByteClass::Host)
            },
        }
    }
}

impl PrefixView {
    /// Whether the grammar can carry the prefix. A server's host must hold
    /// a byte that no nickname holds, a dot or a colon: it would be read as
    /// a nickname otherwise.
    pub open spec fn is_wire_safe(self) -> bool {
        match self {
            PrefixView::Absent => true,
            PrefixView::Server(host) => spelled_in(host, ByteClass::Host) && !all_of(
                encode_utf8(host),
                ByteClass::Nickname,
            ),
            PrefixView::User(user) => user.is_wire_safe(),
        }
    }
}

/// Whether the grammar can carry the argument at `i`: in the trailing form
/// it is made of trailing bytes; in the other it is one or more middle
/// bytes, and the first is no colon.
pub open spec fn argument_is_wire_safe(arguments: Seq<Seq<char>>, i: int) -> bool {
    if is_trailing(arguments, i) {
        all_of(encode_utf8(arguments[i]), ByteClass::Trailing)
    } else {
        spelled_in(arguments[i], ByteClass::Middle) && encode_utf8(arguments[i])[0] != COLON
    }
}

impl MessageView {
    /// Whether the grammar can carry the message, so that its line reads
    /// back as the message.
    pub open spec fn is_wire_safe(self) -> bool {
        &&& self.prefix.is_wire_safe()
        &&& self.command.is_valid()
        &&& forall|i: int|
            0 <= i < self.arguments.len() ==> argument_is_wire_safe(self.arguments, i)
    }
}

/// Whether `text` holds none of NUL, CR and LF.
pub open spec fn is_one_line(text: Seq<char>) -> bool {
    !text.contains('\0') && !text.contains('\r') && !text.contains('\n')
}

/// Whether the encoding of a text holds a byte is told by its characters,
/// for each of the bytes that the classes of parameters leave out.
proof fn lemma_bytes_by_characters(text: Seq<char>)
    ensures
        encode_utf8(text).contains(NUL) <==> text.contains('\0'),
        encode_utf8(text).contains(CR) <==> text.contains('\r'),
        encode_utf8(text).contains(LF) <==> text.contains('\n'),
        encode_utf8(text).contains(SPACE) <==> text.contains(' '),
        text.len() > 0 <==> encode_utf8(text).len() > 0,
        text.len() > 0 ==> (encode_utf8(text)[0] == COLON <==> text[0] == ':'),
{
    assert(NUL as char == '\0' && CR as char == '\r' && LF as char == '\n' && SPACE as char
        == ' ');
    lemma_ascii_byte_in_encoding(text, NUL);
    lemma_ascii_byte_in_encoding(text, CR);
    lemma_ascii_byte_in_encoding(text, LF);
    lemma_ascii_byte_in_encoding(text, SPACE);
    if text.len() > 0 {
        let c = text[0] as u32;
        char_is_scalar(text[0]);
        lemma_encode_scalar_bytes(c);
        assert(encode_utf8(text) == encode_scalar(c) + encode_utf8(text.drop_first()));
        assert(encode_utf8(text)[0] == encode_scalar(c)[0]);
        char_u32_cast(text[0], c);
    }
}

/// A text is made of trailing bytes if and only if it is one line.
pub proof fn lemma_trailing_text(text: Seq<char>)
    ensures
        all_of(encode_utf8(text), ByteClass::Trailing) <==> is_one_line(text),
{
    let bytes = encode_utf8(text);
    lemma_bytes_by_characters(text);
    if is_one_line(text) {
        assert forall|k: int| 0 <= k < bytes.len() implies ByteClass::Trailing.has(
            #[trigger] bytes[k],
        ) by {
            assert(bytes.contains(bytes[k]));
        }
    }
    if all_of(bytes, ByteClass::Trailing) {
        if bytes.contains(NUL) {
            let k = choose|k: int| 0 <= k < bytes.len() && bytes[k] == NUL;
            assert(ByteClass::Trailing.has(bytes[k]));
        }
        if bytes.contains(CR) {
            let k = choose|k: int| 0 <= k < bytes.len() && bytes[k] == CR;
            assert(ByteClass::Trailing.has(bytes[k]));
        }
        if bytes.contains(LF) {
            let k = choose|k: int| 0 <= k < bytes.len() && bytes[k] == LF;
            assert(ByteClass::Trailing.has(bytes[k]));
        }
    }
}

/// A text is made of middle bytes if and only if it is one line and holds
/// no space.
pub proof fn lemma_middle_text(text: Seq<char>)
    ensures
        all_of(encode_utf8(text), ByteClass::Middle) <==> is_one_line(text) && !text.contains(' '),
{
    let bytes = encode_utf8(text);
    lemma_bytes_by_characters(text);
    lemma_trailing_text(text);
    if is_one_line(text) && !text.contains(' ') {
        assert forall|k: int| 0 <= k < bytes.len() implies ByteClass::Middle.has(
            #[trigger] bytes[k],
        ) by {
            assert(bytes.contains(bytes[k]));
        }
    }
    if all_of(bytes, ByteClass::Middle) {
        assert forall|k: int| 0 <= k < bytes.len() implies ByteClass::Trailing.has(
            #[trigger] bytes[k],
        ) by {
            assert(ByteClass::Middle.has(bytes[k]));
        }
        if bytes.contains(SPACE) {
            let k = choose|k: int| 0 <= k < bytes.len() && bytes[k] == SPACE;
            assert(ByteClass::Middle.has(bytes[k]));
        }
    }
}

/// What the wire can carry as an argument, by its characters: in the
/// trailing form anything that holds none of NUL, CR and LF; in the other
/// form what holds none of these either, is not empty, holds no space and
/// does not start with a colon.
pub proof fn lemma_wire_safe_argument_by_characters(arguments: Seq<Seq<char>>, i: int)
    requires
        0 <= i < arguments.len(),
    ensures
        argument_is_wire_safe(arguments, i) <==> {
            &&& is_one_line(arguments[i])
            &&& !is_trailing(arguments, i) ==> {
                &&& arguments[i].len() > 0
                &&& !arguments[i].contains(' ')
                &&& arguments[i][0] != ':'
            }
        },
{
    lemma_bytes_by_characters(arguments[i]);
    lemma_trailing_text(arguments[i]);
    lemma_middle_text(arguments[i]);
}

/// Whether every byte of `bytes` belongs to `class`.
pub fn all_in_class(bytes: &[u8], class: ByteClass) -> (r: bool)
    ensures
        r == all_of(bytes@, class),
{
    let n = run_length(bytes, class);
    proof {
        lemma_run_bounds(bytes@, class);
        if n == bytes@.len() {
            assert(bytes@.take(n as int) =~= bytes@);
        }
    }
    n == bytes.len()
}

/// Whether `text` is one or more bytes of `class`.
pub fn is_spelled_in(text: &str, class: ByteClass) -> (r: bool)
    ensures
        r == spelled_in(text@, class),
{
    let bytes = text.as_bytes();
    bytes.len() > 0 && all_in_class(bytes, class)
}

impl UserInfo {
    /// Whether the grammar can carry the user's origin.
    pub fn is_wire_safe(&self) -> (r: bool)
        ensures
            r == self@.is_wire_safe(),
    {
        match self {
            UserInfo::Nick(nick) => is_spelled_in(nick.as_str(), ByteClass::Nickname),
            UserInfo::NickHost(nick, host) => is_spelled_in(nick.as_str(), ByteClass::Nickname)
                && is_spelled_in(host.as_str(), ByteClass::Host),
            UserInfo::NickUserHost(nick, user, host) => is_spelled_in(
                nick.as_str(),
                ByteClass::Nickname,
            ) && is_spelled_in(user.as_str(), ByteClass::Username) && is_spelled_in(
                host.as_str(),
                ByteClass::Host,
            ),
        }
    }
}

impl Prefix {
    /// Whether the grammar can carry the prefix.
    pub fn is_wire_safe(&self) -> (r: bool)
        ensures
            r == self@.is_wire_safe(),
    {
        match self {
            Prefix::Absent => true,
            Prefix::Server(host) => is_spelled_in(host.as_str(), ByteClass::Host)
                && !all_in_class(host.as_str().as_bytes(), ByteClass::Nickname),
            Prefix::User(user) => user.is_wire_safe(),
        }
    }
}

impl Message {
    /// Whether the grammar can carry the message: whether the line that
    /// `to_string` and the line terminator make of it parses back to it.
    pub fn is_wire_safe(&self) -> (r: bool)
        ensures
            r == self@.is_wire_safe(),
    {
        if !self.prefix.is_wire_safe() || !self.command.is_valid() {
            return false;
        }
        let n = self.arguments.len();
        let mut i: usize = 0;
        while i < n
            invariant
                n == self.arguments@.len(),
                i <= n,
                self@.prefix.is_wire_safe(),
                self@.command.is_valid(),
                forall|k: int| 0 <= k < i ==> argument_is_wire_safe(self@.arguments, k),
            decreases n - i,
        {
            let argument = self.arguments[i].as_str();
            let bytes = argument.as_bytes();
            assert(argument@ == self@.arguments[i as int]);
            let safe = if i == n - 1 && contains_ascii(argument, SPACE) {
                all_in_class(bytes, ByteClass::Trailing)
            } else {
                bytes.len() > 0 && all_in_class(bytes, ByteClass::Middle) && bytes[0] != COLON
            };
            assert(safe == argument_is_wire_safe(self@.arguments, i as int));
            if !safe {
                return false;
            }
            i = i + 1;
        }
        true
    }
}

} // verus!
