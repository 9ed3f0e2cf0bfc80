//! The replies: how a status, an error and a value are written on the wire.

use crate::command::{Command, EchoCommand, PingCommand};
use vstd::prelude::*;
use vstd::string::*;
use vstd::utf8::encode_utf8;

verus! {

/// A simple status: `+`, the text, and the line end.
pub open spec fn simple_reply(text: Seq<char>) -> Seq<char> {
    "+"@ + text + "\r\n"@
}

/// An error: `-ERR `, the message, and the line end.
pub open spec fn error_reply(message: Seq<char>) -> Seq<char> {
    "-ERR "@ + message + "\r\n"@
}

/// The decimal digit for a number below ten.
pub open spec fn digit(d: nat) -> char
    recommends
        d < 10,
{
    "0123456789"@[d as int]
}

/// A number in decimal, without leading zeros.
pub open spec fn decimal(n: nat) -> Seq<char>
    decreases n,
{
    if n < 10 {
        seq![digit(n)]
    } else {
        decimal(n / 10).push(digit(n % 10))
    }
}

/// A value that is present: `$`, the length of the value in bytes of UTF-8,
/// the line end, the value, and the line end.
pub open spec fn bulk_reply(value: Seq<char>) -> Seq<char> {
    "$"@ + decimal(encode_utf8(value).len()) + "\r\n"@ + value + "\r\n"@
}

/// A value that is absent.
pub open spec fn null_reply() -> Seq<char> {
    "$-1\r\n"@
}

/// The reply for an optional value: the bulk form of a present one, the
/// null form for an absent one.
pub open spec fn value_reply(value: Option<Seq<char>>) -> Seq<char> {
    match value {
        Some(v) => bulk_reply(v),
        None => null_reply(),
    }
}

/// Writes a simple status.
pub fn format_simple(text: &str) -> (reply: String)
    ensures
        reply@ == simple_reply(text@),
{
    let mut reply = "+".to_owned();
    reply.append(text);
    reply.append("\r\n");
    reply
}

/// Writes an error.
pub fn format_error(message: &str) -> (reply: String)
    ensures
        reply@ == error_reply(message@),
{
    let mut reply = "-ERR ".to_owned();
    reply.append(message);
    reply.append("\r\n");
    reply
}

/// The text of one decimal digit.
fn digit_text(d: usize) -> (text: &'static str)
    requires
        d < 10,
    ensures
        text@ == seq![digit(d as nat)],
{
    proof {
        reveal_strlit("0123456789");
        reveal_strlit("0");
        reveal_strlit("1");
        reveal_strlit("2");
        reveal_strlit("3");
        reveal_strlit("4");
        reveal_strlit("5");
        reveal_strlit("6");
        reveal_strlit("7");
        reveal_strlit("8");
        reveal_strlit("9");
    }
    let text = if d == 0 {
        "0"
    } else if d == 1 {
        "1"
    } else if d == 2 {
        "2"
    } else if d == 3 {
        "3"
    } else if d == 4 {
        "4"
    } else if d == 5 {
        "5"
    } else if d == 6 {
        "6"
    } else if d == 7 {
        "7"
    } else if d == 8 {
        "8"
    } else {
        "9"
    };
    assert(text@ =~= seq![digit(d as nat)]);
    text
}

/// Writes a number in decimal.
pub fn format_decimal(n: usize) -> (text: String)
    ensures
        text@ == decimal(n as nat),
    decreases n,
{
    if n < 10 {
        digit_text(n).to_owned()
    } else {
        let mut text = format_decimal(n / 10);
        text.append(digit_text(n % 10));
        assert(text@ =~= decimal(n as nat));
        text
    }
}

/// Writes a value that is present.
pub fn format_bulk(value: &str) -> (reply: String)
    ensures
        reply@ == bulk_reply(value@),
{
    let mut reply = "$".to_owned();
    let length = format_decimal(value.as_bytes().len());
    reply.append(length.as_str());
    reply.append("\r\n");
    reply.append(value);
    reply.append("\r\n");
    assert(reply@ =~= bulk_reply(value@));
    reply
}

/// Writes the reply for an optional value.
pub fn format_value(value: &Option<String>) -> (reply: String)
    ensures
        reply@ == value_reply(
            match value {
                Some(v) => Some(v@),
                None => None,
            },
        ),
{
    match value {
        Some(v) => format_bulk(v.as_str()),
        None => "$-1\r\n".to_owned(),
    }
}

/// Something that has a reply of its own, whatever it was asked.
pub trait RedisResponse {
    /// The reply, as text.
    spec fn response(&self) -> Seq<char>;

    fn format_response(&self) -> (reply: String)
        ensures
            reply@ == self.response(),
    ;
}

impl RedisResponse for PingCommand {
    open spec fn response(&self) -> Seq<char> {
        simple_reply("PONG"@)
    }

    fn format_response(&self) -> (reply: String) {
        self.execute(None)
    }
}

impl RedisResponse for EchoCommand {
    /// The reply of an echo that was given the empty message.
    open spec fn response(&self) -> Seq<char> {
        simple_reply(Seq::empty())
    }

    fn format_response(&self) -> (reply: String) {
        let reply = self.format_response(Some("".to_owned()));
        proof {
            reveal_strlit("");
            assert(reply@ =~= simple_reply(Seq::empty()));
        }
        reply
    }
}

} // verus!
