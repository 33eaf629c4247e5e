//! One line of the protocol as a value: where it comes from, its command
//! and its arguments; and the text that stands for it on the wire.

use vstd::prelude::*;
use vstd::string::StringExecFns;
use crate::charset::SPACE;
use crate::command::{Command, CommandView};
use crate::text::contains_ascii;

verus! {

/// A single IRC message, as sent to and from server and client.
#[derive(Debug, Clone, PartialEq, Eq)]
pub struct Message {
    pub prefix: Prefix,
    pub command: Command,
    pub arguments: Vec<String>,
}

/// The prefix of an IRC message.
#[derive(Debug, Clone, PartialEq, Eq)]
pub enum Prefix {
    /// The message has no prefix.
    Absent,
    /// The prefix is a server hostname.
    Server(String),
    /// The prefix is information about a user.
    User(UserInfo),
}

/// Information about a user, as provided in the prefix of an IRC message:
/// a nickname and, optionally, the host and the username of the user.
#[derive(Debug, Clone, PartialEq, Eq)]
pub enum UserInfo {
    /// Nickname-only, as in prefix `:nickname`
    Nick(String),
    /// Nickname and host, as in prefix `:nickname@host`
    NickHost(String, String),
    /// Nickname, username, and host, as in prefix `:nickname!username@host`
    NickUserHost(String, String, String),
}

/// The mathematical value of a `UserInfo`.
pub enum UserInfoView {
    Nick(Seq<char>),
    NickHost(Seq<char>, Seq<char>),
    NickUserHost(Seq<char>, Seq<char>, Seq<char>),
}

/// The mathematical value of a `Prefix`.
pub enum PrefixView {
    Absent,
    Server(Seq<char>),
    User(UserInfoView),
}

/// The mathematical value of a `Message`.
pub struct MessageView {
    pub prefix: PrefixView,
    pub command: CommandView,
    pub arguments: Seq<Seq<char>>,
}

/// The texts of a sequence of strings.
pub open spec fn texts(strings: Seq<String>) -> Seq<Seq<char>> {
    Seq::new(strings.len(), |i: int| strings[i]@)
}

/// The values of a sequence of messages.
pub open spec fn views(messages: Seq<Message>) -> Seq<MessageView> {
    Seq::new(messages.len(), |i: int| messages[i]@)
}

/// The texts of a sequence of string slices.
pub open spec fn slice_texts(strings: Seq<&str>) -> Seq<Seq<char>> {
    Seq::new(strings.len(), |i: int| strings[i]@)
}

impl UserInfoView {
    /// The nickname.
    pub open spec fn nickname(self) -> Seq<char> {
        match self {
            UserInfoView::Nick(nick) => nick,
            UserInfoView::NickHost(nick, _) => nick,
            UserInfoView::NickUserHost(nick, _, _) => nick,
        }
    }

    /// The host, where one is known.
    pub open spec fn host(self) -> Option<Seq<char>> {
        match self {
            UserInfoView::Nick(_) => None,
            UserInfoView::NickHost(_, host) => Some(host),
            UserInfoView::NickUserHost(_, _, host) => Some(host),
        }
    }

    /// The user name, where one is known.
    pub open spec fn username(self) -> Option<Seq<char>> {
        match self {
            UserInfoView::Nick(_) => None,
            UserInfoView::NickHost(_, _) => None,
            UserInfoView::NickUserHost(_, user, _) => Some(user),
        }
    }

    /// `nick`, `nick@host` or `nick!user@host`.
    pub open spec fn wire_text(self) -> Seq<char> {
        match self {
            UserInfoView::Nick(nick) => nick,
            UserInfoView::NickHost(nick, host) => nick + seq!['@'] + host,
            UserInfoView::NickUserHost(nick, user, host) => nick + seq!['!'] + user + seq!['@']
                + host,
        }
    }
}

impl PrefixView {
    /// Nothing where there is no prefix; otherwise a colon, the origin and
    /// one space.
    pub open spec fn wire_text(self) -> Seq<char> {
        match self {
            PrefixView::Absent => Seq::empty(),
            PrefixView::Server(host) => seq![':'] + host + seq![' '],
            PrefixView::User(user) => seq![':'] + user.wire_text() + seq![' '],
        }
    }
}

/// Whether the argument at `i` is written in the trailing form: it is the
/// last one and holds a space.
pub open spec fn is_trailing(arguments: Seq<Seq<char>>, i: int) -> bool {
    i == arguments.len() - 1 && arguments[i].contains(' ')
}

/// The argument at `i` as it stands on the wire: one space, a colon where it
/// is written in the trailing form, and the argument.
pub open spec fn argument_text(arguments: Seq<Seq<char>>, i: int) -> Seq<char> {
    if is_trailing(arguments, i) {
        seq![' ', ':'] + arguments[i]
    } else {
        seq![' '] + arguments[i]
    }
}

/// The arguments from index `from` on as they stand on the wire.
pub open spec fn arguments_text(arguments: Seq<Seq<char>>, from: int) -> Seq<char>
    decreases arguments.len() - from,
{
    if 0 <= from < arguments.len() {
        argument_text(arguments, from) + arguments_text(arguments, from + 1)
    } else {
        Seq::empty()
    }
}

impl MessageView {
    /// The message as it stands on the wire, without the line terminator:
    /// the prefix, the command, and the arguments.
    pub open spec fn wire_text(self) -> Seq<char> {
        self.prefix.wire_text() + self.command.wire_text() + arguments_text(self.arguments, 0)
    }

    /// A well-formed message has a valid command, and none of its arguments
    /// but the last holds a space.
    pub open spec fn is_well_formed(self) -> bool {
        &&& self.command.is_valid()
        &&& forall|i: int|
            0 <= i < self.arguments.len() - 1 ==> !(#[trigger] self.arguments[i]).contains(' ')
    }
}

/// The arguments from index `from` on but the last, each behind one space.
pub open spec fn leading_arguments_text(arguments: Seq<Seq<char>>, from: int) -> Seq<char>
    decreases arguments.len() - from,
{
    if 0 <= from < arguments.len() - 1 {
        seq![' '] + arguments[from] + leading_arguments_text(arguments, from + 1)
    } else {
        Seq::empty()
    }
}

/// The last argument as it stands on the wire: behind a space and a colon
/// where it holds a space, behind a space alone where it holds none.
pub open spec fn last_argument_text(arguments: Seq<Seq<char>>) -> Seq<char> {
    if arguments.last().contains(' ') {
        seq![' ', ':'] + arguments.last()
    } else {
        seq![' '] + arguments.last()
    }
}

/// Of the arguments as they stand on the wire, only the last can be behind
/// a colon, and it is if and only if it holds a space; every other one
/// stands behind a space as it is, whatever it holds.
pub proof fn lemma_only_the_last_argument_is_marked(arguments: Seq<Seq<char>>, from: int)
    requires
        0 <= from < arguments.len(),
    ensures
        arguments_text(arguments, from) == leading_arguments_text(arguments, from)
            + last_argument_text(arguments),
    decreases arguments.len() - from,
{
    if from < arguments.len() - 1 {
        lemma_only_the_last_argument_is_marked(arguments, from + 1);
        assert(arguments_text(arguments, from) =~= leading_arguments_text(arguments, from)
            + last_argument_text(arguments));
    } else {
        assert(arguments_text(arguments, from + 1) =~= Seq::<char>::empty());
        assert(arguments_text(arguments, from) =~= leading_arguments_text(arguments, from)
            + last_argument_text(arguments));
    }
}

impl View for UserInfo {
    type V = UserInfoView;

    open spec fn view(&self) -> UserInfoView {
        match self {
            UserInfo::Nick(nick) => UserInfoView::Nick(nick@),
            UserInfo::NickHost(nick, host) => UserInfoView::NickHost(nick@, host@),
            UserInfo::NickUserHost(nick, user, host) => UserInfoView::NickUserHost(
                nick@,
                user@,
                host@,
            ),
        }
    }
}

impl View for Prefix {
    type V = PrefixView;

    open spec fn view(&self) -> PrefixView {
        match self {
            Prefix::Absent => PrefixView::Absent,
            Prefix::Server(host) => PrefixView::Server(host@),
            Prefix::User(user) => PrefixView::User(user@),
        }
    }
}

impl View for Message {
    type V = MessageView;

    open spec fn view(&self) -> MessageView {
        MessageView {
            prefix: self.prefix@,
            command: self.command@,
            arguments: texts(self.arguments@),
        }
    }
}

impl Message {
    /// Creates a new Message instance.
    pub fn new(prefix: Prefix, command: Command, arguments: Vec<String>) -> (r: Self)
        ensures
            r.prefix == prefix,
            r.command == command,
            r.arguments == arguments,
    {
        Message { prefix: prefix, command: command, arguments: arguments }
    }

    /// Creates a message whose arguments are copies of the given slices.
    pub fn from_strs(prefix: Prefix, command: Command, arguments: Vec<&str>) -> (r: Self)
        ensures
            r.prefix == prefix,
            r.command == command,
            texts(r.arguments@) == slice_texts(arguments@),
    {
        let mut owned: Vec<String> = Vec::new();
        let mut i: usize = 0;
        while i < arguments.len()
            invariant
                i <= arguments@.len(),
                owned@.len() == i,
                forall|k: int| 0 <= k < i ==> (#[trigger] owned@[k])@ == arguments@[k]@,
            decreases arguments@.len() - i,
        {
            owned.push(String::from_str(arguments[i]));
            i = i + 1;
        }
        assert(texts(owned@) =~= slice_texts(arguments@));
        Self::new(prefix, command, owned)
    }

    /// The message as it stands on the wire, without the line terminator.
    /// The last argument is written behind a colon if and only if it holds
    /// a space.
    pub fn to_string(&self) -> (s: String)
        ensures
            s@ == self@.wire_text(),
    {
        let mut s = String::new();
        proof {
            reveal_strlit(":");
            reveal_strlit(" ");
        }
        match &self.prefix {
            Prefix::Absent => {},
            Prefix::Server(server) => {
                s.append(":");
                s.append(server.as_str());
                s.append(" ");
            },
            Prefix::User(user_info) => {
                let user = user_info.to_string();
                s.append(":");
                s.append(user.as_str());
                s.append(" ");
            },
        }
        assert(s@ =~= self@.prefix.wire_text());
        let command = self.command.to_string();
        s.append(command.as_str());
        let ghost arguments = self@.arguments;
        let n = self.arguments.len();
        let mut i: usize = 0;
        while i < n
            invariant
                n == self.arguments@.len(),
                arguments == texts(self.arguments@),
                i <= n,
                s@ + arguments_text(arguments, i as int) == self@.wire_text(),
            decreases n - i,
        {
            let argument = self.arguments[i].as_str();
            proof {
                reveal_strlit(":");
                reveal_strlit(" ");
                assert(argument@ == arguments[i as int]);
            }
            s.append(" ");
            if i == n - 1 && contains_ascii(argument, SPACE) {
                s.append(":");
            }
            s.append(argument);
            assert(s@ + arguments_text(arguments, i + 1) =~= self@.wire_text());
            i = i + 1;
        }
        assert(s@ =~= s@ + arguments_text(arguments, n as int));
        s
    }
}

impl UserInfo {
    /// The user of whom the nickname alone is known.
    pub fn of_nickname(nickname: &str) -> (r: Self)
        ensures
            r@ == UserInfoView::Nick(nickname@),
    {
        UserInfo::Nick(String::from_str(nickname))
    }

    /// The user of whom the nickname and the host are known.
    pub fn of_nickname_host(nickname: &str, host: &str) -> (r: Self)
        ensures
            r@ == UserInfoView::NickHost(nickname@, host@),
    {
        UserInfo::NickHost(String::from_str(nickname), String::from_str(host))
    }

    /// The user of whom the nickname, the user name and the host are known.
    pub fn of_nickname_user_host(nickname: &str, user: &str, host: &str) -> (r: Self)
        ensures
            r@ == UserInfoView::NickUserHost(nickname@, user@, host@),
    {
        UserInfo::NickUserHost(
            String::from_str(nickname),
            String::from_str(user),
            String::from_str(host),
        )
    }

    /// Convenience method to get a Prefix::User instance from this UserInfo.
    pub fn to_prefix(self) -> (r: Prefix)
        ensures
            r == Prefix::User(self),
    {
        Prefix::User(self)
    }

    /// The nickname.
    pub fn nickname(&self) -> (r: &str)
        ensures
            r@ == self@.nickname(),
    {
        match self {
            UserInfo::Nick(nick) => nick.as_str(),
            UserInfo::NickHost(nick, _) => nick.as_str(),
            UserInfo::NickUserHost(nick, _, _) => nick.as_str(),
        }
    }

    /// The host, where one is known.
    pub fn host(&self) -> (r: Option<&str>)
        ensures
            r is Some <==> self@.host() is Some,
            r matches Some(host) ==> self@.host() == Some(host@),
    {
        match self {
            UserInfo::Nick(_) => None,
            UserInfo::NickHost(_, host) => Some(host.as_str()),
            UserInfo::NickUserHost(_, _, host) => Some(host.as_str()),
        }
    }

    /// The user name, where one is known.
    pub fn username(&self) -> (r: Option<&str>)
        ensures
            r is Some <==> self@.username() is Some,
            r matches Some(user) ==> self@.username() == Some(user@),
    {
        match self {
            UserInfo::Nick(_) => None,
            UserInfo::NickHost(_, _) => None,
            UserInfo::NickUserHost(_, user, _) => Some(user.as_str()),
        }
    }

    /// `nick`, `nick@host` or `nick!user@host`.
    pub fn to_string(&self) -> (s: String)
        ensures
            s@ == self@.wire_text(),
    {
        let mut s = String::new();
        proof {
            reveal_strlit("!");
            reveal_strlit("@");
        }
        match self {
            UserInfo::Nick(nick) => {
                s.append(nick.as_str());
            },
            UserInfo::NickHost(nick, host) => {
                s.append(nick.as_str());
                s.append("@");
                s.append(host.as_str());
            },
            UserInfo::NickUserHost(nick, user, host) => {
                s.append(nick.as_str());
                s.append("!");
                s.append(user.as_str());
                s.append("@");
                s.append(host.as_str());
            },
        }
        assert(s@ =~= self@.wire_text());
        s
    }
}

} // verus!
