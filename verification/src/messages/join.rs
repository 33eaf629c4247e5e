use vstd::prelude::*;
use crate::command::CommandView;
use crate::commands;
use crate::message::{Message, MessageView, Prefix, PrefixView};

verus! {

impl Message {
    /// The request to join `channel`.
    pub fn join(channel: &str) -> (r: Message)
        ensures
            r@ == (MessageView {
                prefix: PrefixView::Absent,
                command: CommandView::Word("JOIN"@),
                arguments: seq![channel@],
            }),
    {
        let r = Message::from_strs(Prefix::Absent, commands::JOIN(), vec![channel]);
        assert(r@.arguments =~= seq![channel@]);
        r
    }
}

} // verus!
