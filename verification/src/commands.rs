//! The commands of RFC 2812, each as a function that builds it.

use vstd::prelude::*;
use vstd::string::StringExecFns;
use crate::command::{Command, CommandView};

verus! {

pub fn ADMIN() -> (c: Command)
    ensures
        c@ == CommandView::Word("ADMIN"@),
        c@.is_valid(),
{
    proof {
        reveal_strlit("ADMIN");
    }
    Command::Word(String::from_str("ADMIN"))
}

pub fn AWAY() -> (c: Command)
    ensures
        c@ == CommandView::Word("AWAY"@),
        c@.is_valid(),
{
    proof {
        reveal_strlit("AWAY");
    }
    Command::Word(String::from_str("AWAY"))
}

pub fn CONNECT() -> (c: Command)
    ensures
        c@ == CommandView::Word("CONNECT"@),
        c@.is_valid(),
{
    proof {
        reveal_strlit("CONNECT");
    }
    Command::Word(String::from_str("CONNECT"))
}

pub fn DIE() -> (c: Command)
    ensures
        c@ == CommandView::Word("DIE"@),
        c@.is_valid(),
{
    proof {
        reveal_strlit("DIE");
    }
    Command::Word(String::from_str("DIE"))
}

pub fn ERROR() -> (c: Command)
    ensures
        c@ == CommandView::Word("ERROR"@),
        c@.is_valid(),
{
    proof {
        reveal_strlit("ERROR");
    }
    Command::Word(String::from_str("ERROR"))
}

pub fn INFO() -> (c: Command)
    ensures
        c@ == CommandView::Word("INFO"@),
        c@.is_valid(),
{
    proof {
        reveal_strlit("INFO");
    }
    Command::Word(String::from_str("INFO"))
}

pub fn INVITE() -> (c: Command)
    ensures
        c@ == CommandView::Word("INVITE"@),
        c@.is_valid(),
{
    proof {
        reveal_strlit("INVITE");
    }
    Command::Word(String::from_str("INVITE"))
}

pub fn ISON() -> (c: Command)
    ensures
        c@ == CommandView::Word("ISON"@),
        c@.is_valid(),
{
    proof {
        reveal_strlit("ISON");
    }
    Command::Word(String::from_str("ISON"))
}

pub fn JOIN() -> (c: Command)
    ensures
        c@ == CommandView::Word("JOIN"@),
        c@.is_valid(),
{
    proof {
        reveal_strlit("JOIN");
    }
    Command::Word(String::from_str("JOIN"))
}

pub fn KICK() -> (c: Command)
    ensures
        c@ == CommandView::Word("KICK"@),
        c@.is_valid(),
{
    proof {
        reveal_strlit("KICK");
    }
    Command::Word(String::from_str("KICK"))
}

pub fn KILL() -> (c: Command)
    ensures
        c@ == CommandView::Word("KILL"@),
        c@.is_valid(),
{
    proof {
        reveal_strlit("KILL");
    }
    Command::Word(String::from_str("KILL"))
}

pub fn LINKS() -> (c: Command)
    ensures
        c@ == CommandView::Word("LINKS"@),
        c@.is_valid(),
{
    proof {
        reveal_strlit("LINKS");
    }
    Command::Word(String::from_str("LINKS"))
}

pub fn LIST() -> (c: Command)
    ensures
        c@ == CommandView::Word("LIST"@),
        c@.is_valid(),
{
    proof {
        reveal_strlit("LIST");
    }
    Command::Word(String::from_str("LIST"))
}

pub fn LUSERS() -> (c: Command)
    ensures
        c@ == CommandView::Word("LUSERS"@),
        c@.is_valid(),
{
    proof {
        reveal_strlit("LUSERS");
    }
    Command::Word(String::from_str("LUSERS"))
}

pub fn MODE() -> (c: Command)
    ensures
        c@ == CommandView::Word("MODE"@),
        c@.is_valid(),
{
    proof {
        reveal_strlit("MODE");
    }
    Command::Word(String::from_str("MODE"))
}

pub fn MOTD() -> (c: Command)
    ensures
        c@ == CommandView::Word("MOTD"@),
        c@.is_valid(),
{
    proof {
        reveal_strlit("MOTD");
    }
    Command::Word(String::from_str("MOTD"))
}

pub fn NAMES() -> (c: Command)
    ensures
        c@ == CommandView::Word("NAMES"@),
        c@.is_valid(),
{
    proof {
        reveal_strlit("NAMES");
    }
    Command::Word(String::from_str("NAMES"))
}

pub fn NICK() -> (c: Command)
    ensures
        c@ == CommandView::Word("NICK"@),
        c@.is_valid(),
{
    proof {
        reveal_strlit("NICK");
    }
    Command::Word(String::from_str("NICK"))
}

pub fn NOTICE() -> (c: Command)
    ensures
        c@ == CommandView::Word("NOTICE"@),
        c@.is_valid(),
{
    proof {
        reveal_strlit("NOTICE");
    }
    Command::Word(String::from_str("NOTICE"))
}

pub fn OPER() -> (c: Command)
    ensures
        c@ == CommandView::Word("OPER"@),
        c@.is_valid(),
{
    proof {
        reveal_strlit("OPER");
    }
    Command::Word(String::from_str("OPER"))
}

pub fn PART() -> (c: Command)
    ensures
        c@ == CommandView::Word("PART"@),
        c@.is_valid(),
{
    proof {
        reveal_strlit("PART");
    }
    Command::Word(String::from_str("PART"))
}

pub fn PASS() -> (c: Command)
    ensures
        c@ == CommandView::Word("PASS"@),
        c@.is_valid(),
{
    proof {
        reveal_strlit("PASS");
    }
    Command::Word(String::from_str("PASS"))
}

pub fn PING() -> (c: Command)
    ensures
        c@ == CommandView::Word("PING"@),
        c@.is_valid(),
{
    proof {
        reveal_strlit("PING");
    }
    Command::Word(String::from_str("PING"))
}

pub fn PONG() -> (c: Command)
    ensures
        c@ == CommandView::Word("PONG"@),
        c@.is_valid(),
{
    proof {
        reveal_strlit("PONG");
    }
    Command::Word(String::from_str("PONG"))
}

pub fn PRIVMSG() -> (c: Command)
    ensures
        c@ == CommandView::Word("PRIVMSG"@),
        c@.is_valid(),
{
    proof {
        reveal_strlit("PRIVMSG");
    }
    Command::Word(String::from_str("PRIVMSG"))
}

pub fn QUIT() -> (c: Command)
    ensures
        c@ == CommandView::Word("QUIT"@),
        c@.is_valid(),
{
    proof {
        reveal_strlit("QUIT");
    }
    Command::Word(String::from_str("QUIT"))
}

pub fn REHASH() -> (c: Command)
    ensures
        c@ == CommandView::Word("REHASH"@),
        c@.is_valid(),
{
    proof {
        reveal_strlit("REHASH");
    }
    Command::Word(String::from_str("REHASH"))
}

pub fn RESTART() -> (c: Command)
    ensures
        c@ == CommandView::Word("RESTART"@),
        c@.is_valid(),
{
    proof {
        reveal_strlit("RESTART");
    }
    Command::Word(String::from_str("RESTART"))
}

pub fn SERVICE() -> (c: Command)
    ensures
        c@ == CommandView::Word("SERVICE"@),
        c@.is_valid(),
{
    proof {
        reveal_strlit("SERVICE");
    }
    Command::Word(String::from_str("SERVICE"))
}

pub fn SERVLIST() -> (c: Command)
    ensures
        c@ == CommandView::Word("SERVLIST"@),
        c@.is_valid(),
{
    proof {
        reveal_strlit("SERVLIST");
    }
    Command::Word(String::from_str("SERVLIST"))
}

pub fn SQUERY() -> (c: Command)
    ensures
        c@ == CommandView::Word("SQUERY"@),
        c@.is_valid(),
{
    proof {
        reveal_strlit("SQUERY");
    }
    Command::Word(String::from_str("SQUERY"))
}

pub fn SQUIT() -> (c: Command)
    ensures
        c@ == CommandView::Word("SQUIT"@),
        c@.is_valid(),
{
    proof {
        reveal_strlit("SQUIT");
    }
    Command::Word(String::from_str("SQUIT"))
}

pub fn STATS() -> (c: Command)
    ensures
        c@ == CommandView::Word("STATS"@),
        c@.is_valid(),
{
    proof {
        reveal_strlit("STATS");
    }
    Command::Word(String::from_str("STATS"))
}

pub fn SUMMON() -> (c: Command)
    ensures
        c@ == CommandView::Word("SUMMON"@),
        c@.is_valid(),
{
    proof {
        reveal_strlit("SUMMON");
    }
    Command::Word(String::from_str("SUMMON"))
}

pub fn TIME() -> (c: Command)
    ensures
        c@ == CommandView::Word("TIME"@),
        c@.is_valid(),
{
    proof {
        reveal_strlit("TIME");
    }
    Command::Word(String::from_str("TIME"))
}

pub fn TOPIC() -> (c: Command)
    ensures
        c@ == CommandView::Word("TOPIC"@),
        c@.is_valid(),
{
    proof {
        reveal_strlit("TOPIC");
    }
    Command::Word(String::from_str("TOPIC"))
}

pub fn TRACE() -> (c: Command)
    ensures
        c@ == CommandView::Word("TRACE"@),
        c@.is_valid(),
{
    proof {
        reveal_strlit("TRACE");
    }
    Command::Word(String::from_str("TRACE"))
}

pub fn USER() -> (c: Command)
    ensures
        c@ == CommandView::Word("USER"@),
        c@.is_valid(),
{
    proof {
        reveal_strlit("USER");
    }
    Command::Word(String::from_str("USER"))
}

pub fn USERHOST() -> (c: Command)
    ensures
        c@ == CommandView::Word("USERHOST"@),
        c@.is_valid(),
{
    proof {
        reveal_strlit("USERHOST");
    }
    Command::Word(String::from_str("USERHOST"))
}

pub fn USERS() -> (c: Command)
    ensures
        c@ == CommandView::Word("USERS"@),
        c@.is_valid(),
{
    proof {
        reveal_strlit("USERS");
    }
    Command::Word(String::from_str("USERS"))
}

pub fn VERSION() -> (c: Command)
    ensures
        c@ == CommandView::Word("VERSION"@),
        c@.is_valid(),
{
    proof {
        reveal_strlit("VERSION");
    }
    Command::Word(String::from_str("VERSION"))
}

pub fn WALLOPS() -> (c: Command)
    ensures
        c@ == CommandView::Word("WALLOPS"@),
        c@.is_valid(),
{
    proof {
        reveal_strlit("WALLOPS");
    }
    Command::Word(String::from_str("WALLOPS"))
}

pub fn WHO() -> (c: Command)
    ensures
        c@ == CommandView::Word("WHO"@),
        c@.is_valid(),
{
    proof {
        reveal_strlit("WHO");
    }
    Command::Word(String::from_str("WHO"))
}

pub fn WHOIS() -> (c: Command)
    ensures
        c@ == CommandView::Word("WHOIS"@),
        c@.is_valid(),
{
    proof {
        reveal_strlit("WHOIS");
    }
    Command::Word(String::from_str("WHOIS"))
}

pub fn WHOWAS() -> (c: Command)
    ensures
        c@ == CommandView::Word("WHOWAS"@),
        c@.is_valid(),
{
    proof {
        reveal_strlit("WHOWAS");
    }
    Command::Word(String::from_str("WHOWAS"))
}

} // verus!
