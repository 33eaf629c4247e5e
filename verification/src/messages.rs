//! The messages a client sends most often, and typed readings of those it
//! receives.

pub mod join;
pub mod nick;
pub mod ping;
pub mod privmsg;
pub mod user;

pub use ping::Ping;
pub use privmsg::Privmsg;
