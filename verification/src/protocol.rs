//! The dashboard's wire protocol.
//!
//! A message is a body behind its length: four bytes, big-endian. No body is longer than
//! [`MAX_MESSAGE_LEN`].

use vstd::prelude::*;
use vstd::string::*;

use crate::names::{NameMap, NameSet};
use crate::text::{self, push_decimal};

verus! {

/// What the server tells the dashboard.
pub struct DashboardSnapshot {
    pub queues_len: NameMap<usize>,
    pub processing_counts: NameMap<usize>,
    pub processed_counts: NameMap<usize>,
    pub dropped_counts: NameMap<usize>,
    pub user_ips: NameMap<String>,
    pub blocked_ips: NameSet,
    pub blocked_users: NameSet,
    pub vip_list: Vec<String>,
    pub user_ids: Vec<String>,
    pub backends: Vec<BackendSnapshot>,
    pub model_public_names: NameMap<String>,
    pub log_lines: Vec<(String, i64, String)>,
}

/// What the server tells the dashboard of one backend.
pub struct BackendSnapshot {
    pub url: String,
    pub active_requests: usize,
    pub processed_count: usize,
    pub is_online: bool,
    pub active_models: NameMap<usize>,
    pub processed_models: NameMap<usize>,
    pub configured_models: Vec<String>,
    pub model_status: NameMap<bool>,
}

/// What the dashboard asks of the server.
#[derive(Debug)]
pub enum DashboardCmd {
    ToggleVip(String),
    BlockUser(String),
    UnblockUser(String),
    BlockIp(String),
    UnblockIp(String),
}

impl DashboardCmd {
    /// The command's place among the commands; it stands for the command on the wire.
    pub open spec fn tag(self) -> u32 {
        match self {
            DashboardCmd::ToggleVip(_) => 0,
            DashboardCmd::BlockUser(_) => 1,
            DashboardCmd::UnblockUser(_) => 2,
            DashboardCmd::BlockIp(_) => 3,
            DashboardCmd::UnblockIp(_) => 4,
        }
    }

    /// The user or address that the command is about.
    pub open spec fn subject(self) -> Seq<char> {
        match self {
            DashboardCmd::ToggleVip(s) => s@,
            DashboardCmd::BlockUser(s) => s@,
            DashboardCmd::UnblockUser(s) => s@,
            DashboardCmd::BlockIp(s) => s@,
            DashboardCmd::UnblockIp(s) => s@,
        }
    }

    /// The command with the given place among the commands.
    pub fn from_parts(tag: u32, subject: String) -> (r: Option<Self>)
        ensures
            r is Some == (tag < 5),
            r is Some ==> r->0.tag() == tag && r->0.subject() == subject@,
    {
        if tag == 0 {
            Some(DashboardCmd::ToggleVip(subject))
        } else if tag == 1 {
            Some(DashboardCmd::BlockUser(subject))
        } else if tag == 2 {
            Some(DashboardCmd::UnblockUser(subject))
        } else if tag == 3 {
            Some(DashboardCmd::BlockIp(subject))
        } else if tag == 4 {
            Some(DashboardCmd::UnblockIp(subject))
        } else {
            None
        }
    }

    /// The command's place among the commands, and what it is about.
    pub fn parts(&self) -> (r: (u32, &str))
        ensures
            r.0 == self.tag(),
            r.1@ == self.subject(),
    {
        match self {
            DashboardCmd::ToggleVip(s) => (0, s.as_str()),
            DashboardCmd::BlockUser(s) => (1, s.as_str()),
            DashboardCmd::UnblockUser(s) => (2, s.as_str()),
            DashboardCmd::BlockIp(s) => (3, s.as_str()),
            DashboardCmd::UnblockIp(s) => (4, s.as_str()),
        }
    }
}

impl Clone for DashboardCmd {
    fn clone(&self) -> (r: Self)
        ensures
            r == *self,
    {
        match self {
            DashboardCmd::ToggleVip(s) => DashboardCmd::ToggleVip(s.clone()),
            DashboardCmd::BlockUser(s) => DashboardCmd::BlockUser(s.clone()),
            DashboardCmd::UnblockUser(s) => DashboardCmd::UnblockUser(s.clone()),
            DashboardCmd::BlockIp(s) => DashboardCmd::BlockIp(s.clone()),
            DashboardCmd::UnblockIp(s) => DashboardCmd::UnblockIp(s.clone()),
        }
    }
}

/// The longest body of a message, in bytes, without the four of its length.
///
/// A peer that announces more is refused on sight, so that it cannot make the reader buffer
/// without bound.
pub const MAX_MESSAGE_LEN: usize = 4 * 1024 * 1024;

/// Why a message cannot be written or read.
#[derive(Debug)]
pub enum WireError {
    /// The body to write has this many bytes, which is too many.
    BodyTooLong(usize),
    /// The peer announces this many bytes, which is too many.
    AnnouncedTooLong(usize),
    /// The body to read is no command; the reason follows.
    Malformed(String),
}

impl WireError {
    /// The error in words.
    pub open spec fn words(self) -> Seq<char> {
        match self {
            WireError::BodyTooLong(n) => "encoded message of "@ + text::decimal(n as nat)
                + " bytes exceeds the "@ + text::decimal(MAX_MESSAGE_LEN as nat)
                + "-byte wire limit"@,
            WireError::AnnouncedTooLong(n) => "peer advertised a "@ + text::decimal(n as nat)
                + "-byte message, exceeding the "@ + text::decimal(MAX_MESSAGE_LEN as nat)
                + "-byte limit"@,
            WireError::Malformed(reason) => "bincode decode error: "@ + reason@,
        }
    }

    /// The error in words.
    pub fn message(&self) -> (r: String)
        ensures
            r@ == self.words(),
    {
        match self {
            WireError::BodyTooLong(n) => {
                let mut r = "encoded message of ".to_owned();
                push_decimal(&mut r, *n as u64);
                r.append(" bytes exceeds the ");
                push_decimal(&mut r, MAX_MESSAGE_LEN as u64);
                r.append("-byte wire limit");
                r
            },
            WireError::AnnouncedTooLong(n) => {
                let mut r = "peer advertised a ".to_owned();
                push_decimal(&mut r, *n as u64);
                r.append("-byte message, exceeding the ");
                push_decimal(&mut r, MAX_MESSAGE_LEN as u64);
                r.append("-byte limit");
                r
            },
            WireError::Malformed(reason) => {
                let mut r = "bincode decode error: ".to_owned();
                r.append(reason.as_str());
                r
            },
        }
    }
}

/// The number that four bytes stand for, the first being the highest.
pub open spec fn big_endian(bytes: Seq<u8>) -> int {
    bytes[0] * 0x1000000 + bytes[1] * 0x10000 + bytes[2] * 0x100 + bytes[3]
}

/// `message` is `body` behind its length.
pub open spec fn is_framed(message: Seq<u8>, body: Seq<u8>) -> bool {
    &&& message.len() == 4 + body.len()
    &&& big_endian(message) == body.len()
    &&& message.skip(4) == body
}

/// A message of `body`: the body behind its length. A body that no peer would take is refused.
pub fn encode(body: &[u8]) -> (r: Result<Vec<u8>, WireError>)
    ensures
        match r {
            Ok(message) => body@.len() <= MAX_MESSAGE_LEN && is_framed(message@, body@),
            Err(e) => body@.len() > MAX_MESSAGE_LEN && e == WireError::BodyTooLong(
                body@.len() as usize,
            ),
        },
{
    let n = body.len();
    if n > MAX_MESSAGE_LEN {
        return Err(WireError::BodyTooLong(n));
    }
    let mut message: Vec<u8> = Vec::with_capacity(n + 4);
    message.push((n / 0x1000000) as u8);
    message.push((n / 0x10000 % 0x100) as u8);
    message.push((n / 0x100 % 0x100) as u8);
    message.push((n % 0x100) as u8);
    message.extend_from_slice(body);
    assert(message@.skip(4) =~= body@);
    Ok(message)
}

/// The length that a message announces for its body; nothing while its four bytes are not all
/// there. A length above [`MAX_MESSAGE_LEN`] is refused as soon as it is there.
pub fn prefix_len(buf: &[u8]) -> (r: Result<Option<usize>, WireError>)
    ensures
        match r {
            Ok(None) => buf@.len() < 4,
            Ok(Some(n)) => buf@.len() >= 4 && n == big_endian(buf@) && n <= MAX_MESSAGE_LEN,
            Err(e) => buf@.len() >= 4 && big_endian(buf@) > MAX_MESSAGE_LEN && e
                == WireError::AnnouncedTooLong(big_endian(buf@) as usize),
        },
{
    if buf.len() < 4 {
        return Ok(None);
    }
    let n: u32 = buf[0] as u32 * 0x1000000 + buf[1] as u32 * 0x10000 + buf[2] as u32 * 0x100
        + buf[3] as u32;
    let n = n as usize;
    if n > MAX_MESSAGE_LEN {
        return Err(WireError::AnnouncedTooLong(n));
    }
    Ok(Some(n))
}

/// How many bytes of `buf` its first message occupies, its length and its body; nothing while
/// it is not all there. A length above [`MAX_MESSAGE_LEN`] is refused.
pub fn consumed_len(buf: &[u8]) -> (r: Result<Option<usize>, WireError>)
    ensures
        match r {
            Ok(None) => buf@.len() < 4 || (big_endian(buf@) <= MAX_MESSAGE_LEN && buf@.len() < 4
                + big_endian(buf@)),
            Ok(Some(n)) => 4 <= n <= buf@.len() && n == 4 + big_endian(buf@) && n <= 4
                + MAX_MESSAGE_LEN,
            Err(e) => buf@.len() >= 4 && big_endian(buf@) > MAX_MESSAGE_LEN && e
                == WireError::AnnouncedTooLong(big_endian(buf@) as usize),
        },
{
    match prefix_len(buf) {
        Err(e) => Err(e),
        Ok(None) => Ok(None),
        Ok(Some(n)) => if buf.len() >= 4 + n {
            Ok(Some(4 + n))
        } else {
            Ok(None)
        },
    }
}

/// The body of the first message in `buf`; nothing while it is not all there. A length above
/// [`MAX_MESSAGE_LEN`] is refused.
pub fn decode<'a>(buf: &'a [u8]) -> (r: Result<Option<&'a [u8]>, WireError>)
    ensures
        match r {
            Ok(None) => buf@.len() < 4 || (big_endian(buf@) <= MAX_MESSAGE_LEN && buf@.len() < 4
                + big_endian(buf@)),
            Ok(Some(body)) => 4 <= buf@.len() && big_endian(buf@) <= MAX_MESSAGE_LEN && 4
                + big_endian(buf@) <= buf@.len() && body@ == buf@.subrange(
                4,
                4 + big_endian(buf@),
            ),
            Err(e) => buf@.len() >= 4 && big_endian(buf@) > MAX_MESSAGE_LEN && e
                == WireError::AnnouncedTooLong(big_endian(buf@) as usize),
        },
{
    match consumed_len(buf) {
        Err(e) => Err(e),
        Ok(None) => Ok(None),
        Ok(Some(n)) => Ok(Some(&buf[4..n])),
    }
}

/// A message reads back as its body, whatever follows it.
pub proof fn law_message_reads_back(message: Seq<u8>, body: Seq<u8>, rest: Seq<u8>)
    requires
        is_framed(message, body),
        body.len() <= MAX_MESSAGE_LEN,
    ensures
        (message + rest).len() >= 4,
        big_endian(message + rest) == body.len(),
        (message + rest).subrange(4, 4 + big_endian(message + rest)) == body,
        (message + rest).skip(4 + big_endian(message + rest)) == rest,
{
    let all = message + rest;
    assert(all.subrange(4, 4 + body.len() as int) =~= message.skip(4));
    assert(all.skip(4 + body.len() as int) =~= rest);
}

/// No part of a message that leaves out its end is taken for a message.
pub proof fn law_partial_message_waits(message: Seq<u8>, body: Seq<u8>, n: int)
    requires
        is_framed(message, body),
        body.len() <= MAX_MESSAGE_LEN,
        0 <= n < message.len(),
    ensures
        message.take(n).len() < 4 || (big_endian(message.take(n)) <= MAX_MESSAGE_LEN
            && message.take(n).len() < 4 + big_endian(message.take(n))),
{
}

/// What `bincode` writes, in its standard configuration, for a pair of a number and a string.
pub uninterp spec fn bincode_bytes(tag: u32, subject: Seq<char>) -> Seq<u8>;

/// The pair of a number and a string that `bincode` reads, in its standard configuration, from
/// the beginning of some bytes, or its reason for reading none.
pub uninterp spec fn bincode_pair(bytes: Seq<u8>) -> Result<(u32, Seq<char>), Seq<char>>;

/// The number that `bincode` reads, in its standard configuration, from the beginning of some
/// bytes; nothing where it reads none.
pub uninterp spec fn bincode_number(bytes: Seq<u8>) -> Option<u32>;

/// `bincode::serde::encode_to_vec` of a pair of a number and a string, in the standard
/// configuration. It does not fail, and adds at most five bytes for the number and nine for the
/// length of the string to the string's own. An enum variant with one string is written in the
/// same way, its number first.
#[verifier::external_body]
fn bincode_encode(tag: u32, subject: &str) -> (r: Option<Vec<u8>>)
    ensures
        r is Some,
        r->0@ == bincode_bytes(tag, subject@),
        r->0@.len() <= 14 + vstd::utf8::encode_utf8(subject@).len(),
{
    bincode::serde::encode_to_vec((tag, subject), bincode::config::standard()).ok()
}

/// `bincode::serde::borrow_decode_from_slice` into a pair of a number and a string, in the
/// standard configuration; bytes behind the pair are left unread. It reads back what
/// `encode_to_vec` wrote.
#[verifier::external_body]
fn bincode_decode(bytes: &[u8]) -> (r: Result<(u32, String), String>)
    ensures
        match r {
            Ok((tag, subject)) => bincode_pair(bytes@) == Ok::<(u32, Seq<char>), Seq<char>>(
                (tag, subject@),
            ),
            Err(reason) => bincode_pair(bytes@) == Err::<(u32, Seq<char>), Seq<char>>(reason@),
        },
        forall|tag: u32, subject: Seq<char>| #[trigger]
            bincode_bytes(tag, subject) == bytes@ ==> r is Ok && r->Ok_0.0 == tag
                && r->Ok_0.1@ == subject,
{
    bincode::serde::borrow_decode_from_slice::<(u32, &str), _>(bytes, bincode::config::standard())
        .map(|((tag, subject), _)| (tag, subject.to_owned()))
        .map_err(|e| e.to_string())
}

/// `bincode::serde::decode_from_slice` into a number, in the standard configuration; bytes behind
/// the number are left unread.
#[verifier::external_body]
fn bincode_decode_number(bytes: &[u8]) -> (r: Option<u32>)
    ensures
        r == bincode_number(bytes@),
{
    match bincode::serde::decode_from_slice::<u32, _>(bytes, bincode::config::standard()) {
        Ok((number, _)) => Some(number),
        Err(_) => None,
    }
}

/// A message of a command.
pub fn encode_command(command: &DashboardCmd) -> (r: Result<Vec<u8>, WireError>)
    ensures
        match r {
            Ok(message) => is_framed(
                message@,
                bincode_bytes(command.tag(), command.subject()),
            ) && bincode_bytes(command.tag(), command.subject()).len() <= MAX_MESSAGE_LEN,
            Err(e) => bincode_bytes(command.tag(), command.subject()).len() > MAX_MESSAGE_LEN && e
                == WireError::BodyTooLong(
                bincode_bytes(command.tag(), command.subject()).len() as usize,
            ),
        },
        vstd::utf8::encode_utf8(command.subject()).len() + 14 <= MAX_MESSAGE_LEN ==> r is Ok,
{
    let (tag, subject) = command.parts();
    match bincode_encode(tag, subject) {
        Some(body) => encode(body.as_slice()),
        None => Err(WireError::BodyTooLong(0)),
    }
}

/// Why a number stands for no command.
pub open spec fn unknown_command(tag: u32) -> Seq<char> {
    "OtherString(\"invalid value: integer `"@ + text::decimal(tag as nat)
        + "`, expected variant index 0 <= i < 5\")"@
}

/// What a body says, once it was read as a pair of a number and a string, and as a number alone:
/// the command of that number, or why it is none. A number that stands for no command is reason
/// enough, whatever follows it.
pub open spec fn is_command_of(
    r: Result<DashboardCmd, WireError>,
    pair: Result<(u32, Seq<char>), Seq<char>>,
    number: Option<u32>,
) -> bool {
    match pair {
        Ok((tag, subject)) => if tag < 5 {
            r is Ok && r->Ok_0.tag() == tag && r->Ok_0.subject() == subject
        } else {
            r matches Err(WireError::Malformed(reason)) && reason@ == unknown_command(tag)
        },
        Err(why) => r matches Err(WireError::Malformed(reason)) && reason@ == match number {
            Some(n) => if n < 5 {
                why
            } else {
                unknown_command(n)
            },
            None => why,
        },
    }
}

/// The characters of a pair of a number and a string, or of the reason for there being none.
pub open spec fn pair_view(pair: Result<(u32, String), String>) -> Result<
    (u32, Seq<char>),
    Seq<char>,
> {
    match pair {
        Ok((tag, subject)) => Ok((tag, subject@)),
        Err(reason) => Err(reason@),
    }
}

fn no_such_command(tag: u32) -> (r: WireError)
    ensures
        r matches WireError::Malformed(reason) && reason@ == unknown_command(tag),
{
    let mut reason = "OtherString(\"invalid value: integer `".to_owned();
    push_decimal(&mut reason, tag as u64);
    reason.append("`, expected variant index 0 <= i < 5\")");
    WireError::Malformed(reason)
}

/// The command that a pair of a number and a string stands for; where there is no such pair, the
/// number alone may tell why.
pub fn command_of(pair: Result<(u32, String), String>, number: Option<u32>) -> (r: Result<
    DashboardCmd,
    WireError,
>)
    ensures
        is_command_of(r, pair_view(pair), number),
{
    match pair {
        Ok((tag, subject)) => match DashboardCmd::from_parts(tag, subject) {
            Some(command) => Ok(command),
            None => Err(no_such_command(tag)),
        },
        Err(reason) => match number {
            Some(n) => if n < 5 {
                Err(WireError::Malformed(reason))
            } else {
                Err(no_such_command(n))
            },
            None => Err(WireError::Malformed(reason)),
        },
    }
}

/// The command in the first message of `buf`; nothing while it is not all there. What was
/// written for a command reads back as that command, whatever follows it.
pub fn decode_command(buf: &[u8]) -> (r: Result<Option<DashboardCmd>, WireError>)
    ensures
        buf@.len() >= 4 && big_endian(buf@) > MAX_MESSAGE_LEN ==> r == Err::<
            Option<DashboardCmd>,
            WireError,
        >(WireError::AnnouncedTooLong(big_endian(buf@) as usize)),
        buf@.len() < 4 || (big_endian(buf@) <= MAX_MESSAGE_LEN && buf@.len() < 4 + big_endian(
            buf@,
        )) ==> r == Ok::<Option<DashboardCmd>, WireError>(None),
        buf@.len() >= 4 && big_endian(buf@) <= MAX_MESSAGE_LEN && buf@.len() >= 4 + big_endian(
            buf@,
        ) ==> {
            let body = buf@.subrange(4, 4 + big_endian(buf@));
            match r {
                Ok(command) => command is Some && is_command_of(
                    Ok(command->0),
                    bincode_pair(body),
                    bincode_number(body),
                ),
                Err(e) => is_command_of(Err(e), bincode_pair(body), bincode_number(body)),
            }
        },
        forall|command: DashboardCmd|
            buf@.len() >= 4 && big_endian(buf@) <= MAX_MESSAGE_LEN && buf@.len() >= 4 + big_endian(
                buf@,
            ) && buf@.subrange(4, 4 + big_endian(buf@)) == #[trigger] bincode_bytes(
                command.tag(),
                command.subject(),
            ) ==> r is Ok && r->Ok_0 is Some && r->Ok_0->0.tag() == command.tag()
                && r->Ok_0->0.subject() == command.subject(),
{
    match decode(buf) {
        Err(e) => Err(e),
        Ok(None) => Ok(None),
        Ok(Some(body)) => {
            let pair = bincode_decode(body);
            let number = bincode_decode_number(body);
            match command_of(pair, number) {
                Ok(command) => Ok(Some(command)),
                Err(e) => Err(e),
            }
        },
    }
}

/// Each command has its place, in the order in which they are declared, whatever it is about.
pub proof fn law_each_command_has_its_number(subject: String)
    ensures
        DashboardCmd::ToggleVip(subject).tag() == 0,
        DashboardCmd::BlockUser(subject).tag() == 1,
        DashboardCmd::UnblockUser(subject).tag() == 2,
        DashboardCmd::BlockIp(subject).tag() == 3,
        DashboardCmd::UnblockIp(subject).tag() == 4,
        DashboardCmd::ToggleVip(subject).subject() == subject@,
        DashboardCmd::BlockUser(subject).subject() == subject@,
        DashboardCmd::UnblockUser(subject).subject() == subject@,
        DashboardCmd::BlockIp(subject).subject() == subject@,
        DashboardCmd::UnblockIp(subject).subject() == subject@,
{
}

/// What a body is read as: a pair with one of the five numbers is the command of that number, about
/// the pair's text. A number beyond them is told as such, whether or not a text follows it. Else
/// the reason is the one for which there is no pair.
pub proof fn law_the_number_tells_the_command(
    r: Result<DashboardCmd, WireError>,
    pair: Result<(u32, Seq<char>), Seq<char>>,
    number: Option<u32>,
)
    requires
        is_command_of(r, pair, number),
    ensures
        r is Ok <==> pair is Ok && pair->Ok_0.0 <= 4,
        r matches Ok(command) ==> {
            let (tag, about) = pair->Ok_0;
            match command {
                DashboardCmd::ToggleVip(user) => tag == 0 && user@ == about,
                DashboardCmd::BlockUser(user) => tag == 1 && user@ == about,
                DashboardCmd::UnblockUser(user) => tag == 2 && user@ == about,
                DashboardCmd::BlockIp(ip) => tag == 3 && ip@ == about,
                DashboardCmd::UnblockIp(ip) => tag == 4 && ip@ == about,
            }
        },
        r matches Err(e) ==> {
            let beyond = |n: u32|
                "OtherString(\"invalid value: integer `"@ + text::decimal(n as nat)
                    + "`, expected variant index 0 <= i < 5\")"@;
            &&& e matches WireError::Malformed(reason)
            &&& pair is Ok ==> reason@ == beyond(pair->Ok_0.0)
            &&& pair is Err && number is Some && number->0 > 4 ==> reason@ == beyond(number->0)
            &&& pair is Err && (number is None || number->0 <= 4) ==> reason@ == pair->Err_0
        },
{
}

/// In a length, an earlier byte weighs more than all that follow it, and the last one counts for
/// itself.
pub proof fn law_earlier_bytes_weigh_more(a: Seq<u8>, b: Seq<u8>, k: int)
    requires
        a.len() >= 4,
        b.len() >= 4,
        0 <= k < 4,
        forall|i: int| 0 <= i < k ==> #[trigger] a[i] == b[i],
    ensures
        a[k] < b[k] ==> big_endian(a) < big_endian(b),
        a[0] == 0 && a[1] == 0 && a[2] == 0 ==> big_endian(a) == a[3],
        0 <= big_endian(a) <= 0xffff_ffff,
{
    if k > 0 {
        assert(a[0] == b[0]);
    }
    if k > 1 {
        assert(a[1] == b[1]);
    }
    if k > 2 {
        assert(a[2] == b[2]);
    }
}

/// Errors on the wire are told in words, with the lengths in question in full.
pub proof fn law_wire_errors_are_told_in_words(n: usize, reason: String, tag: u32)
    ensures
        WireError::BodyTooLong(n).words() == "encoded message of "@ + text::decimal(n as nat)
            + " bytes exceeds the "@ + text::decimal(4194304) + "-byte wire limit"@,
        WireError::AnnouncedTooLong(n).words() == "peer advertised a "@ + text::decimal(n as nat)
            + "-byte message, exceeding the "@ + text::decimal(4194304) + "-byte limit"@,
        WireError::Malformed(reason).words() == "bincode decode error: "@ + reason@,
        unknown_command(tag) == "OtherString(\"invalid value: integer `"@ + text::decimal(
            tag as nat,
        ) + "`, expected variant index 0 <= i < 5\")"@,
        MAX_MESSAGE_LEN == 4194304,
{
}

} // verus!
