//! The commands that answer without touching the store.

use crate::response::{format_simple, simple_reply};
use vstd::prelude::*;
use vstd::string::*;

verus! {

/// The reply to an echo request: the message as a simple status, or the
/// marker `ECHO` where no message was given.
pub open spec fn echo_reply(message: Option<Seq<char>>) -> Seq<char> {
    match message {
        Some(m) => simple_reply(m),
        None => simple_reply("ECHO"@),
    }
}

/// A command that turns its optional input into a reply.
pub trait Command {
    fn execute(&self, input: Option<String>) -> String;
}

/// The liveness probe.
pub struct PingCommand;

impl Command for PingCommand {
    /// Answers `PONG`, whatever the input.
    fn execute(&self, _input: Option<String>) -> (reply: String)
        ensures
            reply@ == simple_reply("PONG"@),
    {
        format_simple("PONG")
    }
}

/// The echo.
pub struct EchoCommand;

impl EchoCommand {
    /// Answers the message, or `ECHO` where there is none.
    pub fn format_response(&self, message: Option<String>) -> (reply: String)
        ensures
            reply@ == echo_reply(
                match message {
                    Some(m) => Some(m@),
                    None => None,
                },
            ),
    {
        match message {
            Some(msg) => format_simple(msg.as_str()),
            None => format_simple("ECHO"),
        }
    }
}

} // verus!
