//! The replies of RFC 2812, each as a function that builds its numeric
//! command.

use vstd::prelude::*;
use crate::command::{Command, CommandView};

verus! {

pub fn RPL_WELCOME() -> (c: Command)
    ensures
        c@ == CommandView::Number(1),
{
    Command::Number(1)
}

pub fn RPL_YOURHOST() -> (c: Command)
    ensures
        c@ == CommandView::Number(2),
{
    Command::Number(2)
}

pub fn RPL_CREATED() -> (c: Command)
    ensures
        c@ == CommandView::Number(3),
{
    Command::Number(3)
}

pub fn RPL_MYINFO() -> (c: Command)
    ensures
        c@ == CommandView::Number(4),
{
    Command::Number(4)
}

pub fn RPL_BOUNCE() -> (c: Command)
    ensures
        c@ == CommandView::Number(5),
{
    Command::Number(5)
}

pub fn RPL_TRACELINK() -> (c: Command)
    ensures
        c@ == CommandView::Number(200),
{
    Command::Number(200)
}

pub fn RPL_TRACECONNECTING() -> (c: Command)
    ensures
        c@ == CommandView::Number(201),
{
    Command::Number(201)
}

pub fn RPL_TRACEHANDSHAKE() -> (c: Command)
    ensures
        c@ == CommandView::Number(202),
{
    Command::Number(202)
}

pub fn RPL_TRACEUNKNOWN() -> (c: Command)
    ensures
        c@ == CommandView::Number(203),
{
    Command::Number(203)
}

pub fn RPL_TRACEOPERATOR() -> (c: Command)
    ensures
        c@ == CommandView::Number(204),
{
    Command::Number(204)
}

pub fn RPL_TRACEUSER() -> (c: Command)
    ensures
        c@ == CommandView::Number(205),
{
    Command::Number(205)
}

pub fn RPL_TRACESERVER() -> (c: Command)
    ensures
        c@ == CommandView::Number(206),
{
    Command::Number(206)
}

pub fn RPL_TRACESERVICE() -> (c: Command)
    ensures
        c@ == CommandView::Number(207),
{
    Command::Number(207)
}

pub fn RPL_TRACENEWTYPE() -> (c: Command)
    ensures
        c@ == CommandView::Number(208),
{
    Command::Number(208)
}

pub fn RPL_TRACECLASS() -> (c: Command)
    ensures
        c@ == CommandView::Number(209),
{
    Command::Number(209)
}

pub fn RPL_TRACERECONNECT() -> (c: Command)
    ensures
        c@ == CommandView::Number(210),
{
    Command::Number(210)
}

pub fn RPL_STATSLINKINFO() -> (c: Command)
    ensures
        c@ == CommandView::Number(211),
{
    Command::Number(211)
}

pub fn RPL_STATSCOMMANDS() -> (c: Command)
    ensures
        c@ == CommandView::Number(212),
{
    Command::Number(212)
}

pub fn RPL_ENDOFSTATS() -> (c: Command)
    ensures
        c@ == CommandView::Number(219),
{
    Command::Number(219)
}

pub fn RPL_UMODEIS() -> (c: Command)
    ensures
        c@ == CommandView::Number(221),
{
    Command::Number(221)
}

pub fn RPL_SERVICE() -> (c: Command)
    ensures
        c@ == CommandView::Number(233),
{
    Command::Number(233)
}

pub fn RPL_SERVLIST() -> (c: Command)
    ensures
        c@ == CommandView::Number(234),
{
    Command::Number(234)
}

pub fn RPL_SERVLISTEND() -> (c: Command)
    ensures
        c@ == CommandView::Number(235),
{
    Command::Number(235)
}

pub fn RPL_STATSUPTIME() -> (c: Command)
    ensures
        c@ == CommandView::Number(242),
{
    Command::Number(242)
}

pub fn RPL_STATSOLINE() -> (c: Command)
    ensures
        c@ == CommandView::Number(243),
{
    Command::Number(243)
}

pub fn RPL_STATSDLINE() -> (c: Command)
    ensures
        c@ == CommandView::Number(250),
{
    Command::Number(250)
}

pub fn RPL_LUSERCLIENT() -> (c: Command)
    ensures
        c@ == CommandView::Number(251),
{
    Command::Number(251)
}

pub fn RPL_LUSEROP() -> (c: Command)
    ensures
        c@ == CommandView::Number(252),
{
    Command::Number(252)
}

pub fn RPL_LUSERUNKNOWN() -> (c: Command)
    ensures
        c@ == CommandView::Number(253),
{
    Command::Number(253)
}

pub fn RPL_LUSERCHANNELS() -> (c: Command)
    ensures
        c@ == CommandView::Number(254),
{
    Command::Number(254)
}

pub fn RPL_LUSERME() -> (c: Command)
    ensures
        c@ == CommandView::Number(255),
{
    Command::Number(255)
}

pub fn RPL_ADMINME() -> (c: Command)
    ensures
        c@ == CommandView::Number(256),
{
    Command::Number(256)
}

pub fn RPL_ADMINEMAIL() -> (c: Command)
    ensures
        c@ == CommandView::Number(259),
{
    Command::Number(259)
}

pub fn RPL_TRACELOG() -> (c: Command)
    ensures
        c@ == CommandView::Number(261),
{
    Command::Number(261)
}

pub fn RPL_TRACEEND() -> (c: Command)
    ensures
        c@ == CommandView::Number(262),
{
    Command::Number(262)
}

pub fn RPL_TRYAGAIN() -> (c: Command)
    ensures
        c@ == CommandView::Number(263),
{
    Command::Number(263)
}

pub fn RPL_AWAY() -> (c: Command)
    ensures
        c@ == CommandView::Number(301),
{
    Command::Number(301)
}

pub fn RPL_USERHOST() -> (c: Command)
    ensures
        c@ == CommandView::Number(302),
{
    Command::Number(302)
}

pub fn RPL_ISON() -> (c: Command)
    ensures
        c@ == CommandView::Number(303),
{
    Command::Number(303)
}

pub fn RPL_UNAWAY() -> (c: Command)
    ensures
        c@ == CommandView::Number(305),
{
    Command::Number(305)
}

pub fn RPL_NOWAWAY() -> (c: Command)
    ensures
        c@ == CommandView::Number(306),
{
    Command::Number(306)
}

pub fn RPL_WHOISUSER() -> (c: Command)
    ensures
        c@ == CommandView::Number(311),
{
    Command::Number(311)
}

pub fn RPL_WHOISSERVER() -> (c: Command)
    ensures
        c@ == CommandView::Number(312),
{
    Command::Number(312)
}

pub fn RPL_WHOISOPERATOR() -> (c: Command)
    ensures
        c@ == CommandView::Number(313),
{
    Command::Number(313)
}

pub fn RPL_WHOWASUSER() -> (c: Command)
    ensures
        c@ == CommandView::Number(314),
{
    Command::Number(314)
}

pub fn RPL_ENDOFWHO() -> (c: Command)
    ensures
        c@ == CommandView::Number(315),
{
    Command::Number(315)
}

pub fn RPL_WHOISIDLE() -> (c: Command)
    ensures
        c@ == CommandView::Number(317),
{
    Command::Number(317)
}

pub fn RPL_ENDOFWHOIS() -> (c: Command)
    ensures
        c@ == CommandView::Number(318),
{
    Command::Number(318)
}

pub fn RPL_WHOISCHANNELS() -> (c: Command)
    ensures
        c@ == CommandView::Number(319),
{
    Command::Number(319)
}

pub fn RPL_LISTSTART() -> (c: Command)
    ensures
        c@ == CommandView::Number(321),
{
    Command::Number(321)
}

pub fn RPL_LIST() -> (c: Command)
    ensures
        c@ == CommandView::Number(322),
{
    Command::Number(322)
}

pub fn RPL_LISTEND() -> (c: Command)
    ensures
        c@ == CommandView::Number(323),
{
    Command::Number(323)
}

pub fn RPL_CHANNELMODEIS() -> (c: Command)
    ensures
        c@ == CommandView::Number(324),
{
    Command::Number(324)
}

pub fn RPL_UNIQOPIS() -> (c: Command)
    ensures
        c@ == CommandView::Number(325),
{
    Command::Number(325)
}

pub fn RPL_NOTOPIC() -> (c: Command)
    ensures
        c@ == CommandView::Number(331),
{
    Command::Number(331)
}

pub fn RPL_TOPIC() -> (c: Command)
    ensures
        c@ == CommandView::Number(332),
{
    Command::Number(332)
}

pub fn RPL_INVITING() -> (c: Command)
    ensures
        c@ == CommandView::Number(341),
{
    Command::Number(341)
}

pub fn RPL_SUMMONING() -> (c: Command)
    ensures
        c@ == CommandView::Number(342),
{
    Command::Number(342)
}

pub fn RPL_INVITELIST() -> (c: Command)
    ensures
        c@ == CommandView::Number(346),
{
    Command::Number(346)
}

pub fn RPL_ENDOFINVITELIST() -> (c: Command)
    ensures
        c@ == CommandView::Number(347),
{
    Command::Number(347)
}

pub fn RPL_EXCEPTLIST() -> (c: Command)
    ensures
        c@ == CommandView::Number(348),
{
    Command::Number(348)
}

pub fn RPL_ENDOFEXCEPTLIST() -> (c: Command)
    ensures
        c@ == CommandView::Number(349),
{
    Command::Number(349)
}

pub fn RPL_VERSION() -> (c: Command)
    ensures
        c@ == CommandView::Number(351),
{
    Command::Number(351)
}

pub fn RPL_WHOREPLY() -> (c: Command)
    ensures
        c@ == CommandView::Number(352),
{
    Command::Number(352)
}

pub fn RPL_NAMREPLY() -> (c: Command)
    ensures
        c@ == CommandView::Number(353),
{
    Command::Number(353)
}

pub fn RPL_LINKS() -> (c: Command)
    ensures
        c@ == CommandView::Number(364),
{
    Command::Number(364)
}

pub fn RPL_ENDOFLINKS() -> (c: Command)
    ensures
        c@ == CommandView::Number(365),
{
    Command::Number(365)
}

pub fn RPL_ENDOFNAMES() -> (c: Command)
    ensures
        c@ == CommandView::Number(366),
{
    Command::Number(366)
}

pub fn RPL_BANLIST() -> (c: Command)
    ensures
        c@ == CommandView::Number(367),
{
    Command::Number(367)
}

pub fn RPL_ENDOFBANLIST() -> (c: Command)
    ensures
        c@ == CommandView::Number(368),
{
    Command::Number(368)
}

pub fn RPL_ENDOFWHOWAS() -> (c: Command)
    ensures
        c@ == CommandView::Number(369),
{
    Command::Number(369)
}

pub fn RPL_INFO() -> (c: Command)
    ensures
        c@ == CommandView::Number(371),
{
    Command::Number(371)
}

pub fn RPL_MOTD() -> (c: Command)
    ensures
        c@ == CommandView::Number(372),
{
    Command::Number(372)
}

pub fn RPL_ENDOFINFO() -> (c: Command)
    ensures
        c@ == CommandView::Number(374),
{
    Command::Number(374)
}

pub fn RPL_MOTDSTART() -> (c: Command)
    ensures
        c@ == CommandView::Number(375),
{
    Command::Number(375)
}

pub fn RPL_ENDOFMOTD() -> (c: Command)
    ensures
        c@ == CommandView::Number(376),
{
    Command::Number(376)
}

pub fn RPL_YOUREOPER() -> (c: Command)
    ensures
        c@ == CommandView::Number(381),
{
    Command::Number(381)
}

pub fn RPL_REHASHING() -> (c: Command)
    ensures
        c@ == CommandView::Number(382),
{
    Command::Number(382)
}

pub fn RPL_YOURESERVICE() -> (c: Command)
    ensures
        c@ == CommandView::Number(383),
{
    Command::Number(383)
}

pub fn RPL_MYPORTIS() -> (c: Command)
    ensures
        c@ == CommandView::Number(384),
{
    Command::Number(384)
}

pub fn RPL_TIME() -> (c: Command)
    ensures
        c@ == CommandView::Number(391),
{
    Command::Number(391)
}

pub fn RPL_USERSSTART() -> (c: Command)
    ensures
        c@ == CommandView::Number(392),
{
    Command::Number(392)
}

pub fn RPL_USERS() -> (c: Command)
    ensures
        c@ == CommandView::Number(393),
{
    Command::Number(393)
}

pub fn RPL_ENDOFUSERS() -> (c: Command)
    ensures
        c@ == CommandView::Number(394),
{
    Command::Number(394)
}

pub fn RPL_NOUSERS() -> (c: Command)
    ensures
        c@ == CommandView::Number(395),
{
    Command::Number(395)
}

pub fn ERR_NOSUCHNICK() -> (c: Command)
    ensures
        c@ == CommandView::Number(401),
{
    Command::Number(401)
}

pub fn ERR_NOSUCHSERVER() -> (c: Command)
    ensures
        c@ == CommandView::Number(402),
{
    Command::Number(402)
}

pub fn ERR_NOSUCHCHANNEL() -> (c: Command)
    ensures
        c@ == CommandView::Number(403),
{
    Command::Number(403)
}

pub fn ERR_CANNOTSENDTOCHAN() -> (c: Command)
    ensures
        c@ == CommandView::Number(404),
{
    Command::Number(404)
}

pub fn ERR_TOOMANYCHANNELS() -> (c: Command)
    ensures
        c@ == CommandView::Number(405),
{
    Command::Number(405)
}

pub fn ERR_WASNOSUCHNICK() -> (c: Command)
    ensures
        c@ == CommandView::Number(406),
{
    Command::Number(406)
}

pub fn ERR_TOOMANYTARGETS() -> (c: Command)
    ensures
        c@ == CommandView::Number(407),
{
    Command::Number(407)
}

pub fn ERR_NOSUCHSERVICE() -> (c: Command)
    ensures
        c@ == CommandView::Number(408),
{
    Command::Number(408)
}

pub fn ERR_NOORIGIN() -> (c: Command)
    ensures
        c@ == CommandView::Number(409),
{
    Command::Number(409)
}

pub fn ERR_NORECIPIENT() -> (c: Command)
    ensures
        c@ == CommandView::Number(411),
{
    Command::Number(411)
}

pub fn ERR_NOTEXTTOSEND() -> (c: Command)
    ensures
        c@ == CommandView::Number(412),
{
    Command::Number(412)
}

pub fn ERR_NOTOPLEVEL() -> (c: Command)
    ensures
        c@ == CommandView::Number(413),
{
    Command::Number(413)
}

pub fn ERR_WILDTOPLEVEL() -> (c: Command)
    ensures
        c@ == CommandView::Number(414),
{
    Command::Number(414)
}

pub fn ERR_BADMASK() -> (c: Command)
    ensures
        c@ == CommandView::Number(415),
{
    Command::Number(415)
}

pub fn ERR_UNKNOWNCOMMAND() -> (c: Command)
    ensures
        c@ == CommandView::Number(421),
{
    Command::Number(421)
}

pub fn ERR_NOMOTD() -> (c: Command)
    ensures
        c@ == CommandView::Number(422),
{
    Command::Number(422)
}

pub fn ERR_NOADMININFO() -> (c: Command)
    ensures
        c@ == CommandView::Number(423),
{
    Command::Number(423)
}

pub fn ERR_FILEERROR() -> (c: Command)
    ensures
        c@ == CommandView::Number(424),
{
    Command::Number(424)
}

pub fn ERR_NONICKNAMEGIVEN() -> (c: Command)
    ensures
        c@ == CommandView::Number(431),
{
    Command::Number(431)
}

pub fn ERR_ERRONEUSNICKNAME() -> (c: Command)
    ensures
        c@ == CommandView::Number(432),
{
    Command::Number(432)
}

pub fn ERR_NICKNAMEINUSE() -> (c: Command)
    ensures
        c@ == CommandView::Number(433),
{
    Command::Number(433)
}

pub fn ERR_NICKCOLLISION() -> (c: Command)
    ensures
        c@ == CommandView::Number(436),
{
    Command::Number(436)
}

pub fn ERR_UNAVAILRESOURCE() -> (c: Command)
    ensures
        c@ == CommandView::Number(437),
{
    Command::Number(437)
}

pub fn ERR_USERNOTINCHANNEL() -> (c: Command)
    ensures
        c@ == CommandView::Number(441),
{
    Command::Number(441)
}

pub fn ERR_NOTONCHANNEL() -> (c: Command)
    ensures
        c@ == CommandView::Number(442),
{
    Command::Number(442)
}

pub fn ERR_USERONCHANNEL() -> (c: Command)
    ensures
        c@ == CommandView::Number(443),
{
    Command::Number(443)
}

pub fn ERR_NOLOGIN() -> (c: Command)
    ensures
        c@ == CommandView::Number(444),
{
    Command::Number(444)
}

pub fn ERR_SUMMONDISABLED() -> (c: Command)
    ensures
        c@ == CommandView::Number(445),
{
    Command::Number(445)
}

pub fn ERR_USERSDISABLED() -> (c: Command)
    ensures
        c@ == CommandView::Number(446),
{
    Command::Number(446)
}

pub fn ERR_NOTREGISTERED() -> (c: Command)
    ensures
        c@ == CommandView::Number(451),
{
    Command::Number(451)
}

pub fn ERR_NEEDMOREPARAMS() -> (c: Command)
    ensures
        c@ == CommandView::Number(461),
{
    Command::Number(461)
}

pub fn ERR_ALREADYREGISTRED() -> (c: Command)
    ensures
        c@ == CommandView::Number(462),
{
    Command::Number(462)
}

pub fn ERR_NOPERMFORHOST() -> (c: Command)
    ensures
        c@ == CommandView::Number(463),
{
    Command::Number(463)
}

pub fn ERR_PASSWDMISMATCH() -> (c: Command)
    ensures
        c@ == CommandView::Number(464),
{
    Command::Number(464)
}

pub fn ERR_YOUREBANNEDCREEP() -> (c: Command)
    ensures
        c@ == CommandView::Number(465),
{
    Command::Number(465)
}

pub fn ERR_YOUWILLBEBANNED() -> (c: Command)
    ensures
        c@ == CommandView::Number(466),
{
    Command::Number(466)
}

pub fn ERR_KEYSET() -> (c: Command)
    ensures
        c@ == CommandView::Number(467),
{
    Command::Number(467)
}

pub fn ERR_CHANNELISFULL() -> (c: Command)
    ensures
        c@ == CommandView::Number(471),
{
    Command::Number(471)
}

pub fn ERR_UNKNOWNMODE() -> (c: Command)
    ensures
        c@ == CommandView::Number(472),
{
    Command::Number(472)
}

pub fn ERR_INVITEONLYCHAN() -> (c: Command)
    ensures
        c@ == CommandView::Number(473),
{
    Command::Number(473)
}

pub fn ERR_BANNEDFROMCHAN() -> (c: Command)
    ensures
        c@ == CommandView::Number(474),
{
    Command::Number(474)
}

pub fn ERR_BADCHANNELKEY() -> (c: Command)
    ensures
        c@ == CommandView::Number(475),
{
    Command::Number(475)
}

pub fn ERR_BADCHANMASK() -> (c: Command)
    ensures
        c@ == CommandView::Number(476),
{
    Command::Number(476)
}

pub fn ERR_NOCHANMODES() -> (c: Command)
    ensures
        c@ == CommandView::Number(477),
{
    Command::Number(477)
}

pub fn ERR_BANLISTFULL() -> (c: Command)
    ensures
        c@ == CommandView::Number(478),
{
    Command::Number(478)
}

pub fn ERR_NOPRIVILEGES() -> (c: Command)
    ensures
        c@ == CommandView::Number(481),
{
    Command::Number(481)
}

pub fn ERR_CHANOPRIVSNEEDED() -> (c: Command)
    ensures
        c@ == CommandView::Number(482),
{
    Command::Number(482)
}

pub fn ERR_CANTKILLSERVER() -> (c: Command)
    ensures
        c@ == CommandView::Number(483),
{
    Command::Number(483)
}

pub fn ERR_RESTRICTED() -> (c: Command)
    ensures
        c@ == CommandView::Number(484),
{
    Command::Number(484)
}

pub fn ERR_UNIQOPPRIVSNEEDED() -> (c: Command)
    ensures
        c@ == CommandView::Number(485),
{
    Command::Number(485)
}

pub fn ERR_NOOPERHOST() -> (c: Command)
    ensures
        c@ == CommandView::Number(491),
{
    Command::Number(491)
}

pub fn ERR_NOSERVICEHOST() -> (c: Command)
    ensures
        c@ == CommandView::Number(492),
{
    Command::Number(492)
}

pub fn ERR_UMODEUNKNOWNFLAG() -> (c: Command)
    ensures
        c@ == CommandView::Number(501),
{
    Command::Number(501)
}

pub fn ERR_USERSDONTMATCH() -> (c: Command)
    ensures
        c@ == CommandView::Number(502),
{
    Command::Number(502)
}

} // verus!
