use vstd::prelude::*;
use crate::command::CommandView;
use crate::commands;
use crate::message::{texts, Message, MessageView, Prefix, PrefixView};

verus! {

/// Represents a received PING message.
#[derive(Debug, Clone, Copy, PartialEq, Eq)]
pub struct Ping<'a> {
    pub arguments: &'a Vec<String>,
}

impl MessageView {
    /// Whether the command is PING.
    pub open spec fn is_ping(self) -> bool {
        self.command == CommandView::Word("PING"@)
    }

    /// The PONG that answers a PING with these arguments.
    pub open spec fn pong(arguments: Seq<Seq<char>>) -> MessageView {
        MessageView {
            prefix: PrefixView::Absent,
            command: CommandView::Word("PONG"@),
            arguments: arguments,
        }
    }
}

impl Message {
    /// Reads the message as a PING: there is one exactly where the command
    /// is PING, and it holds the arguments of the message.
    pub fn as_ping(&self) -> (r: Option<Ping<'_>>)
        ensures
            r is Some <==> self@.is_ping(),
            r matches Some(ping) ==> ping.arguments@ == self.arguments@,
    {
        if self.command != commands::PING() {
            return None;
        }
        Some(Ping { arguments: &self.arguments })
    }
}

impl<'a> Ping<'a> {
    /// Creates the PONG message corresponding to this PING message: it has
    /// no prefix and the same arguments.
    pub fn pong(&self) -> (r: Message)
        ensures
            r@ == MessageView::pong(texts(self.arguments@)),
    {
        let mut arg_copy: Vec<&str> = Vec::new();
        let mut i: usize = 0;
        while i < self.arguments.len()
            invariant
                i <= self.arguments@.len(),
                arg_copy@.len() == i,
                forall|k: int| 0 <= k < i ==> (#[trigger] arg_copy@[k])@ == self.arguments@[k]@,
            decreases self.arguments@.len() - i,
        {
            arg_copy.push(self.arguments[i].as_str());
            i = i + 1;
        }
        let r = Message::from_strs(Prefix::Absent, commands::PONG(), arg_copy);
        assert(r@.arguments =~= texts(self.arguments@));
        r
    }
}

/// The PONG for a PING holds the arguments of the PING unchanged; where the
/// PING has no prefix, the two messages differ in the command alone.
pub proof fn lemma_pong_mirrors_ping(ping: MessageView)
    requires
        ping.is_ping(),
    ensures
        MessageView::pong(ping.arguments).arguments == ping.arguments,
        ping.prefix is Absent ==> MessageView::pong(ping.arguments) == (MessageView {
            command: CommandView::Word("PONG"@),
            ..ping
        }),
{
}

} // verus!
