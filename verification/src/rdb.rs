//! The snapshot: what the store held at one instant, in a form that means
//! the same after a restart, and its encoding as JSON text.
//!
//! A snapshot lists the values and the deadlines by key. The deadlines are
//! wall-clock instants, so they mean the same to the process that reads the
//! snapshot back as to the one that wrote it.
//!
//! The text is the JSON array of the two lists, each a JSON array of pairs
//! of a key and a value, or of a key and a deadline (`null` where the key
//! does not expire). Writing and reading the text is the work of
//! `serde_json`; what this module proves is stated over the text that it
//! gives and the lists that it reads.

use crate::text::text_of;
use vstd::prelude::*;
use vstd::string::*;

verus! {

/// The mapping that a list of pairs stands for. Where a key occurs more
/// than once, the last pair counts.
pub open spec fn pairs_map<V>(pairs: Seq<(Seq<char>, V)>) -> Map<Seq<char>, V>
    decreases pairs.len(),
{
    if pairs.len() == 0 {
        Map::empty()
    } else {
        pairs_map(pairs.drop_last()).insert(pairs.last().0, pairs.last().1)
    }
}

/// The views of a list of key and value pairs.
pub open spec fn value_pairs(pairs: Seq<(String, String)>) -> Seq<(Seq<char>, Seq<char>)> {
    Seq::new(pairs.len(), |i: int| (pairs[i].0@, pairs[i].1@))
}

/// The views of a list of key and deadline pairs.
pub open spec fn deadline_pairs(pairs: Seq<(String, Option<u128>)>) -> Seq<
    (Seq<char>, Option<u128>),
> {
    Seq::new(pairs.len(), |i: int| (pairs[i].0@, pairs[i].1))
}

/// A snapshot of the store.
pub struct RedisData {
    /// The value of each key.
    pub store: Vec<(String, String)>,
    /// The deadline of each key, in milliseconds since the Unix epoch; none
    /// for a key that does not expire.
    pub expiry: Vec<(String, Option<u128>)>,
}

impl RedisData {
    /// The keys and values, as listed.
    pub open spec fn listed_values(&self) -> Seq<(Seq<char>, Seq<char>)> {
        value_pairs(self.store@)
    }

    /// The keys and deadlines, as listed.
    pub open spec fn listed_deadlines(&self) -> Seq<(Seq<char>, Option<u128>)> {
        deadline_pairs(self.expiry@)
    }

    /// The values by key.
    pub open spec fn values(&self) -> Map<Seq<char>, Seq<char>> {
        pairs_map(self.listed_values())
    }

    /// The deadlines by key.
    pub open spec fn deadlines(&self) -> Map<Seq<char>, Option<u128>> {
        pairs_map(self.listed_deadlines())
    }
}

/// The JSON text that `serde_json::to_string` gives for the pair of the two
/// lists, or nothing where it fails.
pub uninterp spec fn json_text(
    values: Seq<(Seq<char>, Seq<char>)>,
    deadlines: Seq<(Seq<char>, Option<u128>)>,
) -> Option<Seq<char>>;

/// The two lists that `serde_json::from_str` reads from a JSON text, or
/// nothing where it refuses the text.
pub uninterp spec fn json_snapshot(text: Seq<char>) -> Option<
    (Seq<(Seq<char>, Seq<char>)>, Seq<(Seq<char>, Option<u128>)>),
>;

/// The error of `serde_json`.
#[verifier::external_type_specification]
#[verifier::external_body]
pub struct ExJsonError(serde_json::Error);

/// Calls `serde_json::to_string` on the pair of the two lists of a
/// snapshot. The call computes its result from the lists alone, so the
/// result is named: the text is `json_text` of the lists, and the call
/// fails exactly where `json_text` has nothing. Nothing is claimed of what
/// the text holds.
#[verifier::external_body]
fn encode_snapshot(data: &RedisData) -> (outcome: Result<String, serde_json::Error>)
    ensures
        match outcome {
            Ok(text) => json_text(data.listed_values(), data.listed_deadlines()) == Some(text@),
            Err(_) => json_text(data.listed_values(), data.listed_deadlines()) is None,
        },
{
    serde_json::to_string(&(&data.store, &data.expiry))
}

/// Calls `serde_json::from_str` for a pair of two lists, and puts the lists
/// it read into a snapshot. The call computes its result from the text
/// alone, so the result is named: the lists are `json_snapshot` of the
/// text, and the call fails exactly where `json_snapshot` has nothing.
/// Nothing is claimed of which texts are read.
#[verifier::external_body]
fn decode_snapshot(text: &str) -> (outcome: Result<RedisData, serde_json::Error>)
    ensures
        match outcome {
            Ok(data) => json_snapshot(text@) == Some(
                (data.listed_values(), data.listed_deadlines()),
            ),
            Err(_) => json_snapshot(text@) is None,
        },
{
    match serde_json::from_str::<(Vec<(String, String)>, Vec<(String, Option<u128>)>)>(text) {
        Ok((store, expiry)) => Ok(RedisData { store, expiry }),
        Err(error) => Err(error),
    }
}

/// What is written for a snapshot: its JSON text where snapshots are kept
/// and the encoding succeeds, nothing else.
pub open spec fn text_to_save(
    enabled: bool,
    values: Seq<(Seq<char>, Seq<char>)>,
    deadlines: Seq<(Seq<char>, Option<u128>)>,
) -> Option<Seq<char>> {
    if enabled {
        json_text(values, deadlines)
    } else {
        None
    }
}

/// What is loaded from the text of the snapshot file: the lists that the
/// text holds, where snapshots are kept, the file could be read and its
/// text is accepted; nothing else.
pub open spec fn lists_to_load(enabled: bool, text: Option<Seq<char>>) -> Option<
    (Seq<(Seq<char>, Seq<char>)>, Seq<(Seq<char>, Option<u128>)>),
> {
    match text {
        Some(t) if enabled => json_snapshot(t),
        _ => None,
    }
}

/// How loading the snapshot ended.
#[derive(Clone, Copy, Debug, PartialEq, Eq, Structural)]
pub enum LoadOutcome {
    /// The text held a snapshot, and the store took it over.
    Loaded,
    /// There was nothing to load: no snapshots are kept, or the file could
    /// not be read.
    Absent,
    /// The file was read, but its text is no snapshot.
    Corrupt,
}

/// How loading ends for the text of the snapshot file.
pub open spec fn load_outcome(enabled: bool, text: Option<Seq<char>>) -> LoadOutcome {
    match text {
        Some(t) if enabled => if json_snapshot(t) is Some {
            LoadOutcome::Loaded
        } else {
            LoadOutcome::Corrupt
        },
        _ => LoadOutcome::Absent,
    }
}

/// The lists of an optional snapshot.
pub open spec fn lists_of(data: Option<RedisData>) -> Option<
    (Seq<(Seq<char>, Seq<char>)>, Seq<(Seq<char>, Option<u128>)>),
> {
    match data {
        Some(d) => Some((d.listed_values(), d.listed_deadlines())),
        None => None,
    }
}

/// The view of an optional borrowed text.
pub open spec fn borrowed_text_of(text: Option<&str>) -> Option<Seq<char>> {
    match text {
        Some(t) => Some(t@),
        None => None,
    }
}

/// Where the snapshot is kept: the path of a file, or nothing where the
/// service runs without persistence.
pub struct RdbPersistence {
    pub file_path: Option<String>,
}

impl RdbPersistence {
    pub fn new(file_path: Option<String>) -> (rdb: RdbPersistence)
        ensures
            rdb.file_path == file_path,
    {
        RdbPersistence { file_path }
    }

    /// Whether snapshots are kept at all.
    pub fn is_enabled(&self) -> (enabled: bool)
        ensures
            enabled == self.file_path.is_some(),
    {
        self.file_path.is_some()
    }

    /// What to take from the outcome of encoding a snapshot: the text of a
    /// success, nothing of a failure. A failure to encode skips the save.
    pub fn text_of_outcome(outcome: Result<String, serde_json::Error>) -> (text: Option<String>)
        ensures
            text == match outcome {
                Ok(t) => Some(t),
                Err(_) => None,
            },
    {
        match outcome {
            Ok(t) => Some(t),
            Err(_) => None,
        }
    }

    /// What to take from the outcome of decoding the snapshot file: the
    /// snapshot of a success, nothing of a failure. A text that is refused
    /// counts as no snapshot.
    pub fn snapshot_of_outcome(outcome: Result<RedisData, serde_json::Error>) -> (data: Option<
        RedisData,
    >)
        ensures
            data == match outcome {
                Ok(d) => Some(d),
                Err(_) => None,
            },
    {
        match outcome {
            Ok(d) => Some(d),
            Err(_) => None,
        }
    }

    /// The text to write to the snapshot file for a snapshot: its JSON
    /// text, or nothing where no snapshots are kept or the encoding fails.
    pub fn save_to_rdb(&self, data: &RedisData) -> (text: Option<String>)
        ensures
            text_of(text) == text_to_save(
                self.file_path is Some,
                data.listed_values(),
                data.listed_deadlines(),
            ),
    {
        if self.is_enabled() {
            Self::text_of_outcome(encode_snapshot(data))
        } else {
            None
        }
    }

    /// The snapshot that the text of the snapshot file holds. Where no
    /// snapshots are kept, the file could not be read (no text is given), or
    /// the text is refused, there is none: the service then starts empty.
    pub fn load_from_rdb(&self, text: Option<&str>) -> (data: Option<RedisData>)
        ensures
            lists_of(data) == lists_to_load(self.file_path is Some, borrowed_text_of(text)),
    {
        if self.is_enabled() {
            match text {
                Some(t) => Self::snapshot_of_outcome(decode_snapshot(t)),
                None => None,
            }
        } else {
            None
        }
    }
}

} // verus!
