use vstd::prelude::*;
use crate::command::CommandView;
use crate::commands;
use crate::message::{Message, MessageView, Prefix, PrefixView};

verus! {

impl Message {
    /// The registration of the user `user` under the real name `realname`,
    /// with mode `0` and no server named.
    pub fn user(user: &str, realname: &str) -> (r: Message)
        ensures
            r@ == (MessageView {
                prefix: PrefixView::Absent,
                command: CommandView::Word("USER"@),
                arguments: seq![user@, "0"@, "*"@, realname@],
            }),
    {
        let r = Message::from_strs(
            Prefix::Absent,
            commands::USER(),
            vec![user, "0", "*", realname],
        );
        assert(r@.arguments =~= seq![user@, "0"@, "*"@, realname@]);
        r
    }
}

} // verus!
