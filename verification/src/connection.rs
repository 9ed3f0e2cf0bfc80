//! The handler: it owns the store, answers requests, runs the expiry cycle
//! and saves and loads the snapshot.
//!
//! The handler reads no clock, socket or file. Whoever drives it hands it
//! each request together with the current instant, and sends the reply;
//! calls the expiry cycle once every interval; hands it the text of the
//! snapshot file at start, and writes the text that the handler gives out.

use crate::command::{echo_reply, Command, EchoCommand, PingCommand};
use crate::rdb::{
    borrowed_text_of, lists_to_load, load_outcome, pairs_map, text_to_save, LoadOutcome,
    RdbPersistence, RedisData,
};
use crate::request::{first_line, parse_seconds, seconds_of, tokenize, words};
use crate::response::{error_reply, format_error, format_simple, format_value, simple_reply, value_reply};
use crate::store::{
    deadlines_of, expired_keys, listed_deadlines, listed_values, lookup, restored, swept, values_of,
    written, Slot, Store,
};
use crate::text::{same_text, text_of, texts};
use vstd::prelude::*;
use vstd::string::*;

verus! {

/// The time between two cycles of the expiry sweep, in milliseconds.
pub const SWEEP_INTERVAL_MILLIS: u64 = 1000;

/// The word that names the time to live of a `SET` request: the fifth
/// word, where the fourth is `EX`.
pub open spec fn ttl_word(request: Seq<Seq<char>>) -> Option<Seq<char>> {
    if request.len() >= 5 && request[3] == "EX"@ {
        Some(request[4])
    } else {
        None
    }
}

/// The time to live that a `SET` request asks for, in seconds.
pub open spec fn requested_ttl(request: Seq<Seq<char>>) -> Option<u64> {
    match ttl_word(request) {
        Some(word) => seconds_of(word),
        None => None,
    }
}

/// A `SET` request names a time to live that is no number of seconds.
pub open spec fn has_bad_ttl(request: Seq<Seq<char>>) -> bool {
    ttl_word(request) matches Some(word) && seconds_of(word) is None
}

/// The request writes to the store: it is a `SET` with a key and a value
/// whose time to live, if it names one, is a number of seconds.
pub open spec fn is_write(request: Seq<Seq<char>>) -> bool {
    request.len() >= 3 && request[0] == "SET"@ && !has_bad_ttl(request)
}

/// The reply to a request, given as its words, on the contents at `now`.
/// The first word names the command, in capitals; words beyond those that
/// a command reads are ignored.
pub open spec fn reply_to(contents: Map<Seq<char>, Slot>, request: Seq<Seq<char>>, now: u64) -> Seq<
    char,
> {
    if request.len() == 0 {
        error_reply("unknown command"@)
    } else if request[0] == "PING"@ {
        simple_reply("PONG"@)
    } else if request[0] == "ECHO"@ {
        echo_reply(
            if request.len() >= 2 {
                Some(request[1])
            } else {
                None
            },
        )
    } else if request[0] == "SET"@ {
        if request.len() < 3 {
            error_reply("wrong number of arguments for 'SET' command"@)
        } else if has_bad_ttl(request) {
            error_reply("value is not an integer or out of range"@)
        } else {
            simple_reply("OK"@)
        }
    } else if request[0] == "GET"@ {
        if request.len() < 2 {
            error_reply("wrong number of arguments for 'GET' command"@)
        } else {
            value_reply(lookup(contents, request[1], now))
        }
    } else {
        error_reply("unknown command"@)
    }
}

/// The contents after a request: a write puts its value under its key,
/// every other request leaves the contents as they are.
pub open spec fn contents_after(
    contents: Map<Seq<char>, Slot>,
    request: Seq<Seq<char>>,
    now: u64,
) -> Map<Seq<char>, Slot> {
    if is_write(request) {
        written(contents, request[1], request[2], requested_ttl(request), now)
    } else {
        contents
    }
}

/// The four command names are four different words.
pub proof fn lemma_command_names_differ()
    ensures
        "PING"@ != "ECHO"@,
        "PING"@ != "SET"@,
        "PING"@ != "GET"@,
        "ECHO"@ != "SET"@,
        "ECHO"@ != "GET"@,
        "SET"@ != "GET"@,
{
    reveal_strlit("PING");
    reveal_strlit("ECHO");
    reveal_strlit("SET");
    reveal_strlit("GET");
    assert("PING"@.len() == 4 && "ECHO"@.len() == 4);
    assert("SET"@.len() == 3 && "GET"@.len() == 3);
    assert("PING"@[0] != "ECHO"@[0]);
    assert("SET"@[0] != "GET"@[0]);
}

/// The handler of a key-value service.
pub struct RedisConnectionHandler {
    store: Store,
    rdb: RdbPersistence,
}

impl View for RedisConnectionHandler {
    type V = Map<Seq<char>, Slot>;

    /// What the store holds.
    closed spec fn view(&self) -> Map<Seq<char>, Slot> {
        self.store@
    }
}

impl RedisConnectionHandler {
    /// Where the handler keeps its snapshot.
    pub closed spec fn persistence(&self) -> RdbPersistence {
        self.rdb
    }

    /// A handler with an empty store, which keeps its snapshot in the file
    /// at the path, or keeps none where no path is given.
    pub fn new(rdb_file_path: Option<String>) -> (handler: RedisConnectionHandler)
        ensures
            handler@ == Map::<Seq<char>, Slot>::empty(),
            handler.persistence().file_path == rdb_file_path,
    {
        RedisConnectionHandler { store: Store::new(), rdb: RdbPersistence::new(rdb_file_path) }
    }

    /// Where the handler keeps its snapshot.
    pub fn rdb(&self) -> (rdb: &RdbPersistence)
        ensures
            *rdb == self.persistence(),
    {
        &self.rdb
    }

    /// The keys in the order in which the store keeps its entries, each
    /// with what it holds.
    pub closed spec fn listing(&self) -> Seq<(Seq<char>, Slot)> {
        self.store.listing()
    }

    /// A copy of everything the store holds: the value of each key, and for
    /// each key its deadline, both in the order of the listing. Each key of
    /// the store occurs once in either list.
    pub fn snapshot(&self) -> (data: RedisData)
        ensures
            data.listed_values() == listed_values(self.listing()),
            data.listed_deadlines() == listed_deadlines(self.listing()),
            data.values() == values_of(self@),
            data.deadlines() == deadlines_of(self@),
            restored(data.values(), data.deadlines()) == self@,
            self@.dom().finite(),
            data.store@.len() == self@.len(),
            data.expiry@.len() == self@.len(),
    {
        self.store.snapshot()
    }

    /// Takes over what a snapshot lists, in place of what the store held:
    /// every key that has a value there, with its deadline where the
    /// snapshot gives one. Without a snapshot the store stays as it is. An
    /// entry whose deadline has passed comes back with that deadline, and
    /// so comes back expired.
    pub fn restore(&mut self, data: Option<RedisData>)
        ensures
            final(self)@ == match data {
                Some(snapshot) => restored(snapshot.values(), snapshot.deadlines()),
                None => old(self)@,
            },
            final(self).persistence() == old(self).persistence(),
    {
        match data {
            Some(snapshot) => {
                self.store.restore(&snapshot);
            },
            None => {},
        }
    }

    /// Loads the snapshot from the text of the snapshot file, given as
    /// nothing where the file could not be read. Where the text holds a
    /// snapshot, the store takes over what it lists; where the handler
    /// keeps no snapshot, no text is given or the text is refused, the
    /// store stays as it is. The result says which of these happened.
    pub fn load_from_rdb(&mut self, text: Option<&str>) -> (outcome: LoadOutcome)
        ensures
            outcome == load_outcome(
                old(self).persistence().file_path is Some,
                borrowed_text_of(text),
            ),
            final(self)@ == match lists_to_load(
                old(self).persistence().file_path is Some,
                borrowed_text_of(text),
            ) {
                Some((values, deadlines)) => restored(pairs_map(values), pairs_map(deadlines)),
                None => old(self)@,
            },
            final(self).persistence() == old(self).persistence(),
    {
        if !self.rdb.is_enabled() || text.is_none() {
            return LoadOutcome::Absent;
        }
        match self.rdb.load_from_rdb(text) {
            Some(snapshot) => {
                self.restore(Some(snapshot));
                LoadOutcome::Loaded
            },
            None => LoadOutcome::Corrupt,
        }
    }

    /// The text to write to the snapshot file: the JSON text of a snapshot
    /// of the store, or nothing where the handler keeps no snapshot or the
    /// encoding fails.
    pub fn save_to_rdb(&self) -> (text: Option<String>)
        ensures
            text_of(text) == text_to_save(
                self.persistence().file_path is Some,
                listed_values(self.listing()),
                listed_deadlines(self.listing()),
            ),
    {
        let data = self.store.snapshot();
        self.rdb.save_to_rdb(&data)
    }

    /// One cycle of the expiry sweep at `now`: removes every entry whose
    /// deadline is `now` or earlier, and returns the keys it removed.
    pub fn run_expiry_cycle(&mut self, now: u64) -> (removed: Vec<String>)
        ensures
            final(self)@ == swept(old(self)@, now),
            texts(removed@).to_set() == expired_keys(old(self)@, now),
            texts(removed@).no_duplicates(),
            final(self).persistence() == old(self).persistence(),
    {
        self.store.delete_if_expired(now)
    }

    /// Answers a request, given as its words, at `now`.
    pub fn dispatch(&mut self, request: &Vec<String>, now: u64) -> (reply: String)
        ensures
            reply@ == reply_to(old(self)@, texts(request@), now),
            final(self)@ == contents_after(old(self)@, texts(request@), now),
            final(self).persistence() == old(self).persistence(),
    {
        let ghost asked = texts(request@);
        assert(forall|i: int| 0 <= i < request@.len() ==> asked[i] == (#[trigger] request@[i])@);
        if request.len() == 0 {
            return format_error("unknown command");
        }
        let name = request[0].as_str();
        proof {
            lemma_command_names_differ();
        }
        if same_text(name, "PING") {
            let ping = PingCommand;
            ping.execute(None)
        } else if same_text(name, "ECHO") {
            let echo = EchoCommand;
            let message = if request.len() >= 2 {
                Some(request[1].clone())
            } else {
                None
            };
            echo.format_response(message)
        } else if same_text(name, "SET") {
            if request.len() < 3 {
                return format_error("wrong number of arguments for 'SET' command");
            }
            let ttl = if request.len() >= 5 && same_text(request[3].as_str(), "EX") {
                match parse_seconds(request[4].as_str()) {
                    Some(seconds) => Some(seconds),
                    None => {
                        return format_error("value is not an integer or out of range");
                    },
                }
            } else {
                None
            };
            self.store.set(request[1].clone(), request[2].clone(), ttl, now);
            format_simple("OK")
        } else if same_text(name, "GET") {
            if request.len() < 2 {
                return format_error("wrong number of arguments for 'GET' command");
            }
            let value = self.store.get(request[1].as_str(), now);
            format_value(&value)
        } else {
            format_error("unknown command")
        }
    }

    /// Answers the first line of a request at `now`. An empty request has
    /// no line and gets no reply.
    pub fn handle_request(&mut self, request: &str, now: u64) -> (reply: Option<String>)
        ensures
            reply is Some <==> request@.len() > 0,
            reply matches Some(text) ==> text@ == reply_to(
                old(self)@,
                words(first_line(request@)),
                now,
            ),
            final(self)@ == if request@.len() > 0 {
                contents_after(old(self)@, words(first_line(request@)), now)
            } else {
                old(self)@
            },
            final(self).persistence() == old(self).persistence(),
    {
        if request.as_bytes().len() == 0 {
            proof {
                vstd::utf8::encode_utf8_decode_utf8(request@);
                assert(request@.len() == 0) by {
                    if request@.len() > 0 {
                        vstd::utf8::encode_utf8_first_scalar(request@);
                    }
                }
            }
            return None;
        }
        assert(request@.len() > 0) by {
            if request@.len() == 0 {
                assert(vstd::utf8::encode_utf8(request@).len() == 0);
            }
        }
        let asked = tokenize(request);
        Some(self.dispatch(&asked, now))
    }
}

} // verus!
