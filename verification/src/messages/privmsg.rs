use vstd::prelude::*;
use crate::command::CommandView;
use crate::commands;
use crate::message::{Message, MessageView, Prefix, PrefixView, UserInfo};

verus! {

/// Simple accessor for a received PRIVMSG message.
#[derive(Debug, Clone, Copy, PartialEq, Eq)]
pub struct Privmsg<'a> {
    pub from: &'a UserInfo,
    pub to: &'a str,
    pub text: &'a str,
}

impl MessageView {
    /// Whether the message is a PRIVMSG from a user with exactly a target
    /// and a text.
    pub open spec fn is_privmsg(self) -> bool {
        &&& self.command == CommandView::Word("PRIVMSG"@)
        &&& self.arguments.len() == 2
        &&& self.prefix is User
    }
}

/// A message from a server or from nobody, one with another number of
/// arguments than two, and one with another command is no PRIVMSG.
pub proof fn lemma_what_is_no_privmsg(message: MessageView)
    ensures
        message.prefix is Server ==> !message.is_privmsg(),
        message.prefix is Absent ==> !message.is_privmsg(),
        message.arguments.len() != 2 ==> !message.is_privmsg(),
        message.command != CommandView::Word("PRIVMSG"@) ==> !message.is_privmsg(),
{
}

impl Message {
    /// Reads the message as a PRIVMSG. There is one exactly where the
    /// command is PRIVMSG, the prefix is a user and there are two
    /// arguments: the target and the text.
    pub fn as_privmsg(&self) -> (r: Option<Privmsg<'_>>)
        ensures
            r is Some <==> self@.is_privmsg(),
            r matches Some(privmsg) ==> {
                &&& self@.prefix == PrefixView::User(privmsg.from@)
                &&& privmsg.to@ == self@.arguments[0]
                &&& privmsg.text@ == self@.arguments[1]
            },
    {
        if self.command != commands::PRIVMSG() {
            return None;
        }
        if self.arguments.len() != 2 {
            return None;
        }
        let user = match &self.prefix {
            Prefix::User(u) => u,
            _ => {
                return None;
            },
        };
        Some(Privmsg { from: user, to: self.arguments[0].as_str(), text: self.arguments[1].as_str() })
    }

    /// The message that sends `text` to `to`, a nickname or a channel.
    pub fn privmsg(to: &str, text: &str) -> (r: Message)
        ensures
            r@ == (MessageView {
                prefix: PrefixView::Absent,
                command: CommandView::Word("PRIVMSG"@),
                arguments: seq![to@, text@],
            }),
    {
        let r = Message::from_strs(Prefix::Absent, commands::PRIVMSG(), vec![to, text]);
        assert(r@.arguments =~= seq![to@, text@]);
        r
    }
}

} // verus!
