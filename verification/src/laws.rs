//! What holds of the store over time, stated on its contents.
//!
//! A history is a list of steps, each a write or an expiry sweep with the
//! instant at which it ran. The laws say what a read sees after a history.

use crate::store::{
    deadline_for, deadlines_of, is_live, lookup, restored, swept, values_of, written, Slot,
    MILLIS_PER_SECOND,
};
use vstd::prelude::*;

verus! {

/// One step that changes the store.
pub enum Step {
    /// A write of `value` under `key` at the instant `at`.
    Write { key: Seq<char>, value: Seq<char>, ttl: Option<u64>, at: u64 },
    /// An expiry sweep at the instant `at`.
    Sweep { at: u64 },
}

impl Step {
    /// The instant at which the step ran.
    pub open spec fn instant(self) -> u64 {
        match self {
            Step::Write { at, .. } => at,
            Step::Sweep { at } => at,
        }
    }

    /// The step writes under `key`.
    pub open spec fn writes(self, key: Seq<char>) -> bool {
        self matches Step::Write { key: written_key, .. } && written_key == key
    }

    /// The contents after the step.
    pub open spec fn apply(self, contents: Map<Seq<char>, Slot>) -> Map<Seq<char>, Slot> {
        match self {
            Step::Write { key, value, ttl, at } => written(contents, key, value, ttl, at),
            Step::Sweep { at } => swept(contents, at),
        }
    }
}

/// The contents after a history, step by step from the first.
pub open spec fn replay(contents: Map<Seq<char>, Slot>, history: Seq<Step>) -> Map<Seq<char>, Slot>
    decreases history.len(),
{
    if history.len() == 0 {
        contents
    } else {
        history.last().apply(replay(contents, history.drop_last()))
    }
}

/// After a history that does not write under `key`, the key holds what it
/// held before, unless a sweep found it expired and removed it.
proof fn lemma_untouched_key(contents: Map<Seq<char>, Slot>, history: Seq<Step>, key: Seq<char>)
    requires
        contents.contains_key(key),
        forall|i: int| 0 <= i < history.len() ==> !(#[trigger] history[i]).writes(key),
    ensures
        ({
            let after = replay(contents, history);
            ||| after.contains_key(key) && after[key] == contents[key]
            ||| !after.contains_key(key) && exists|i: int|
                0 <= i < history.len() && (#[trigger] history[i]) is Sweep && !is_live(
                    contents[key],
                    history[i].instant(),
                )
        }),
    decreases history.len(),
{
    if history.len() > 0 {
        let earlier = history.drop_last();
        let last = history.len() - 1;
        assert forall|i: int| 0 <= i < earlier.len() implies !(#[trigger] earlier[i]).writes(
            key,
        ) by {
            assert(earlier[i] == history[i]);
        }
        lemma_untouched_key(contents, earlier, key);
        let before = replay(contents, earlier);
        let after = replay(contents, history);
        assert(!history[last].writes(key));
        if before.contains_key(key) {
            if !after.contains_key(key) {
                assert(history[last] is Sweep && !is_live(contents[key], history[last].instant()));
            }
        } else {
            let i = choose|i: int|
                0 <= i < earlier.len() && (#[trigger] earlier[i]) is Sweep && !is_live(
                    contents[key],
                    earlier[i].instant(),
                );
            assert(history[i] == earlier[i]);
        }
    }
}

/// A value written without a time to live is read back at every later
/// instant, whatever was written under other keys and whenever the store
/// was swept in between.
pub proof fn law_value_without_ttl_stays(
    contents: Map<Seq<char>, Slot>,
    key: Seq<char>,
    value: Seq<char>,
    at: u64,
    history: Seq<Step>,
    now: u64,
)
    requires
        forall|i: int| 0 <= i < history.len() ==> !(#[trigger] history[i]).writes(key),
    ensures
        lookup(replay(written(contents, key, value, None, at), history), key, now) == Some(value),
{
    lemma_untouched_key(written(contents, key, value, None, at), history, key);
}

/// A value written at `at` with a time to live of `ttl` seconds is read
/// back while less than that time has passed, and is absent from then on:
/// whether or not a sweep has removed it by then. This holds after every
/// history that does not write under the key again and whose steps ran no
/// later than the read.
pub proof fn law_value_with_ttl_expires(
    contents: Map<Seq<char>, Slot>,
    key: Seq<char>,
    value: Seq<char>,
    ttl: u64,
    at: u64,
    history: Seq<Step>,
    now: u64,
)
    requires
        at <= now,
        forall|i: int| 0 <= i < history.len() ==> !(#[trigger] history[i]).writes(key),
        forall|i: int| 0 <= i < history.len() ==> (#[trigger] history[i]).instant() <= now,
    ensures
        lookup(replay(written(contents, key, value, Some(ttl), at), history), key, now) == if now
            - at < ttl * MILLIS_PER_SECOND {
            Some(value)
        } else {
            None::<Seq<char>>
        },
{
    lemma_untouched_key(written(contents, key, value, Some(ttl), at), history, key);
}

/// A sweep changes nothing that a read at the same or a later instant
/// sees: what it removes had expired already.
pub proof fn law_sweep_is_invisible(
    contents: Map<Seq<char>, Slot>,
    swept_at: u64,
    key: Seq<char>,
    now: u64,
)
    requires
        swept_at <= now,
    ensures
        lookup(swept(contents, swept_at), key, now) == lookup(contents, key, now),
{
}

/// Writing the same value under the same key a second time, both times
/// without a time to live, leaves the contents as the first write left
/// them.
pub proof fn law_repeated_write_changes_nothing(
    contents: Map<Seq<char>, Slot>,
    key: Seq<char>,
    value: Seq<char>,
    first_at: u64,
    second_at: u64,
)
    ensures
        written(written(contents, key, value, None, first_at), key, value, None, second_at)
            == written(contents, key, value, None, first_at),
{
    assert(written(written(contents, key, value, None, first_at), key, value, None, second_at)
        =~= written(contents, key, value, None, first_at));
}

/// A snapshot that is restored gives back the contents it was taken from:
/// the same keys, each with its value and its deadline. So a read at any
/// instant sees after the restart what it would have seen without it.
pub proof fn law_snapshot_round_trip(contents: Map<Seq<char>, Slot>, key: Seq<char>, now: u64)
    ensures
        restored(values_of(contents), deadlines_of(contents)) == contents,
        lookup(restored(values_of(contents), deadlines_of(contents)), key, now) == lookup(
            contents,
            key,
            now,
        ),
{
    assert(restored(values_of(contents), deadlines_of(contents)) =~= contents);
}

/// In a snapshot the values and the deadlines list the same keys: no value
/// is without its entry of deadline, and no deadline without its value.
pub proof fn law_snapshot_lists_agree(contents: Map<Seq<char>, Slot>)
    ensures
        values_of(contents).dom() == contents.dom(),
        deadlines_of(contents).dom() == contents.dom(),
{
    assert(values_of(contents).dom() =~= contents.dom());
    assert(deadlines_of(contents).dom() =~= contents.dom());
}

/// After writes under keys that all differ, in whatever order they ran,
/// each key holds exactly what was written under it: the value together
/// with the deadline of that write. No write is lost to another, and a
/// read of the key gives the value written for as long as it is live.
pub proof fn law_writes_to_distinct_keys(
    contents: Map<Seq<char>, Slot>,
    history: Seq<Step>,
    i: int,
    now: u64,
)
    requires
        0 <= i < history.len(),
        forall|j: int| 0 <= j < history.len() ==> (#[trigger] history[j]) is Write,
        forall|j: int, k: int|
            0 <= j < k < history.len() ==> (#[trigger] history[j])->key != (
            #[trigger] history[k])->key,
    ensures
        ({
            let after = replay(contents, history);
            let step = history[i];
            &&& after.contains_key(step->key)
            &&& after[step->key] == Slot {
                value: step->value,
                expires_at: deadline_for(step.instant(), step->ttl),
            }
            &&& step->ttl is None ==> lookup(after, step->key, now) == Some(step->value)
        }),
    decreases history.len(),
{
    let earlier = history.drop_last();
    let last = history.len() - 1;
    assert(history[last] is Write);
    if i < last {
        assert forall|j: int| 0 <= j < earlier.len() implies (#[trigger] earlier[j]) is Write by {
            assert(earlier[j] == history[j]);
        }
        assert forall|j: int, k: int| 0 <= j < k < earlier.len() implies (#[trigger] earlier[j])->key
            != (#[trigger] earlier[k])->key by {
            assert(earlier[j] == history[j]);
            assert(earlier[k] == history[k]);
        }
        law_writes_to_distinct_keys(contents, earlier, i, now);
        assert(earlier[i] == history[i]);
        assert(history[i]->key != history[last]->key);
    }
}

} // verus!
