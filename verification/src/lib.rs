//! A client-side codec for the IRC wire protocol: commands, messages, the
//! line grammar, and a framer that turns received bytes into messages.

pub mod charset;
pub mod client;
pub mod command;
#[allow(non_snake_case)]
pub mod commands;
pub mod exactness;
pub mod grammar;
pub mod irc_stream;
pub mod message;
pub mod messages;
pub mod parser;
#[allow(non_snake_case)]
pub mod responses;
pub mod roundtrip;
pub mod streaming;
pub mod text;
pub mod wire;

pub use command::{Command, CommandError, CommandView};
pub use message::{Message, MessageView, Prefix, PrefixView, UserInfo, UserInfoView};
pub use parser::{parse_message, ParseError};
pub use irc_stream::{IrcStream, ReadError, ReadErrorView, StreamView};
