use vstd::prelude::*;
use crate::command::CommandView;
use crate::commands;
use crate::message::{Message, MessageView, Prefix, PrefixView};

verus! {

impl Message {
    /// The request for the nickname `nick`.
    pub fn nick(nick: &str) -> (r: Message)
        ensures
            r@ == (MessageView {
                prefix: PrefixView::Absent,
                command: CommandView::Word("NICK"@),
                arguments: seq![nick@],
            }),
    {
        let r = Message::from_strs(Prefix::Absent, commands::NICK(), vec![nick]);
        assert(r@.arguments =~= seq![nick@]);
        r
    }
}

} // verus!
