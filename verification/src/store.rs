//! The store: text values under text keys, each with an optional deadline.
//!
//! Time is wall-clock time in milliseconds since the Unix epoch. The caller
//! supplies the current instant with every operation that depends on it, so
//! that the store itself never reads a clock.

use crate::rdb::{deadline_pairs, pairs_map, value_pairs, RedisData};
use crate::text::{same_text, text_of, texts};
use vstd::prelude::*;
use vstd::string::*;

verus! {

/// Milliseconds in one second: the clock counts milliseconds, a time to live
/// is given in seconds.
pub const MILLIS_PER_SECOND: u64 = 1000;

/// What the store holds under one key: the value and, where the entry
/// expires, the instant at which it does.
pub struct Slot {
    pub value: Seq<char>,
    pub expires_at: Option<u128>,
}

/// The deadline of an entry written at `now` with the time to live `ttl`
/// (in seconds): none without a time to live, else `now` plus that many
/// seconds. The sum always fits in 128 bits.
pub open spec fn deadline_for(now: u64, ttl: Option<u64>) -> Option<u128> {
    match ttl {
        Some(seconds) => Some((now + seconds * MILLIS_PER_SECOND) as u128),
        None => None,
    }
}

/// An entry is live at `now` while its deadline, if it has one, lies in the
/// future: an entry whose deadline equals `now` has expired.
pub open spec fn is_live(slot: Slot, now: u64) -> bool {
    match slot.expires_at {
        Some(deadline) => now < deadline,
        None => true,
    }
}

/// What a read of `key` at `now` yields: the value of a live entry, nothing
/// for an absent or an expired one.
pub open spec fn lookup(contents: Map<Seq<char>, Slot>, key: Seq<char>, now: u64) -> Option<
    Seq<char>,
> {
    if contents.contains_key(key) && is_live(contents[key], now) {
        Some(contents[key].value)
    } else {
        None
    }
}

/// The contents after writing `value` under `key` at `now`.
pub open spec fn written(
    contents: Map<Seq<char>, Slot>,
    key: Seq<char>,
    value: Seq<char>,
    ttl: Option<u64>,
    now: u64,
) -> Map<Seq<char>, Slot> {
    contents.insert(key, Slot { value, expires_at: deadline_for(now, ttl) })
}

/// The keys whose entries have expired at `now`.
pub open spec fn expired_keys(contents: Map<Seq<char>, Slot>, now: u64) -> Set<Seq<char>> {
    Set::new(|key: Seq<char>| contents.contains_key(key) && !is_live(contents[key], now))
}

/// The contents once every entry that has expired at `now` is gone.
pub open spec fn swept(contents: Map<Seq<char>, Slot>, now: u64) -> Map<Seq<char>, Slot> {
    contents.remove_keys(expired_keys(contents, now))
}

/// The values of the contents, by key.
pub open spec fn values_of(contents: Map<Seq<char>, Slot>) -> Map<Seq<char>, Seq<char>> {
    contents.map_values(|slot: Slot| slot.value)
}

/// The deadlines of the contents, by key: each key of the contents has an
/// entry, which is empty where the key does not expire.
pub open spec fn deadlines_of(contents: Map<Seq<char>, Slot>) -> Map<Seq<char>, Option<u128>> {
    contents.map_values(|slot: Slot| slot.expires_at)
}

/// The contents that a mapping of values and a mapping of deadlines stand
/// for: every key that has a value, with its deadline where it has one. A
/// deadline for a key without a value counts for nothing.
pub open spec fn restored(
    values: Map<Seq<char>, Seq<char>>,
    deadlines: Map<Seq<char>, Option<u128>>,
) -> Map<Seq<char>, Slot> {
    Map::new(
        |key: Seq<char>| values.contains_key(key),
        |key: Seq<char>|
            Slot {
                value: values[key],
                expires_at: if deadlines.contains_key(key) {
                    deadlines[key]
                } else {
                    None
                },
            },
    )
}

/// The deadline that a list of key and deadline pairs gives for the key, if
/// the key occurs in it.
fn find_deadline(pairs: &Vec<(String, Option<u128>)>, key: &str) -> (found: Option<Option<u128>>)
    ensures
        found == if pairs_map(deadline_pairs(pairs@)).contains_key(key@) {
            Some(pairs_map(deadline_pairs(pairs@))[key@])
        } else {
            None
        },
{
    let mut found: Option<Option<u128>> = None;
    let mut i: usize = 0;
    let ghost listed = deadline_pairs(pairs@);
    while i < pairs.len()
        invariant
            i <= pairs@.len(),
            listed == deadline_pairs(pairs@),
            found == if pairs_map(listed.take(i as int)).contains_key(key@) {
                Some(pairs_map(listed.take(i as int))[key@])
            } else {
                None
            },
        decreases pairs@.len() - i,
    {
        proof {
            assert(listed.take(i + 1).drop_last() =~= listed.take(i as int));
        }
        if same_text(pairs[i].0.as_str(), key) {
            found = Some(pairs[i].1);
        }
        i += 1;
    }
    proof {
        assert(listed.take(i as int) =~= listed);
    }
    found
}

/// One stored entry.
struct Entry {
    key: String,
    value: String,
    expires_at: Option<u128>,
}

impl Entry {
    spec fn slot(&self) -> Slot {
        Slot { value: self.value@, expires_at: self.expires_at }
    }
}

/// No key occurs twice among the entries.
spec fn unique_keys(entries: Seq<Entry>) -> bool {
    forall|i: int, j: int|
        0 <= i < j < entries.len() ==> (#[trigger] entries[i]).key@ != (#[trigger] entries[j]).key@
}

/// Some entry has the key.
spec fn holds_key(entries: Seq<Entry>, key: Seq<char>) -> bool {
    exists|i: int| 0 <= i < entries.len() && (#[trigger] entries[i]).key@ == key
}

/// The place of an entry with the key, where there is one.
spec fn place_of(entries: Seq<Entry>, key: Seq<char>) -> int {
    choose|i: int| 0 <= i < entries.len() && (#[trigger] entries[i]).key@ == key
}

/// The mapping that a list of entries stands for.
spec fn contents_of(entries: Seq<Entry>) -> Map<Seq<char>, Slot> {
    Map::new(
        |key: Seq<char>| holds_key(entries, key),
        |key: Seq<char>| entries[place_of(entries, key)].slot(),
    )
}

/// With unique keys, the entry at place `i` is the one that the mapping
/// holds under its key.
proof fn lemma_entry_in_contents(entries: Seq<Entry>, i: int)
    requires
        unique_keys(entries),
        0 <= i < entries.len(),
    ensures
        holds_key(entries, entries[i].key@),
        place_of(entries, entries[i].key@) == i,
        contents_of(entries).contains_key(entries[i].key@),
        contents_of(entries)[entries[i].key@] == entries[i].slot(),
{
    let key = entries[i].key@;
    let p = place_of(entries, key);
    assert(0 <= p < entries.len() && entries[p].key@ == key);
    if p < i {
        assert(entries[p].key@ != entries[i].key@);
    } else if i < p {
        assert(entries[i].key@ != entries[p].key@);
    }
}

/// Replacing the entry at place `i` by one with the same key keeps the keys
/// unique and changes the mapping at that key alone.
proof fn lemma_replace_entry(before: Seq<Entry>, i: int, entry: Entry)
    requires
        unique_keys(before),
        0 <= i < before.len(),
        before[i].key@ == entry.key@,
    ensures
        unique_keys(before.update(i, entry)),
        contents_of(before.update(i, entry)) == contents_of(before).insert(
            entry.key@,
            entry.slot(),
        ),
{
    let after = before.update(i, entry);
    assert forall|a: int, b: int| 0 <= a < b < after.len() implies (#[trigger] after[a]).key@ != (
    #[trigger] after[b]).key@ by {
        assert(after[a].key@ == before[a].key@);
        assert(after[b].key@ == before[b].key@);
    }
    assert forall|k: Seq<char>|
        holds_key(after, k) <==> (k == entry.key@ || holds_key(before, k)) by {
        if holds_key(after, k) {
            let p = place_of(after, k);
            assert(before[p].key@ == after[p].key@);
        }
        if holds_key(before, k) {
            let p = place_of(before, k);
            assert(after[p].key@ == before[p].key@);
        }
        if k == entry.key@ {
            assert(after[i].key@ == k);
        }
    }
    assert forall|k: Seq<char>| holds_key(after, k) implies contents_of(after)[k] == contents_of(
        before,
    ).insert(entry.key@, entry.slot())[k] by {
        let p = place_of(after, k);
        lemma_entry_in_contents(after, p);
        if p != i {
            assert(after[p] == before[p]);
            lemma_entry_in_contents(before, p);
        }
    }
    assert(contents_of(after) =~= contents_of(before).insert(entry.key@, entry.slot()));
}

/// Appending an entry under a key that was not there keeps the keys unique
/// and adds that key to the mapping.
proof fn lemma_append_entry(before: Seq<Entry>, entry: Entry)
    requires
        unique_keys(before),
        !holds_key(before, entry.key@),
    ensures
        unique_keys(before.push(entry)),
        contents_of(before.push(entry)) == contents_of(before).insert(entry.key@, entry.slot()),
{
    let after = before.push(entry);
    let last = before.len() as int;
    assert forall|a: int, b: int| 0 <= a < b < after.len() implies (#[trigger] after[a]).key@ != (
    #[trigger] after[b]).key@ by {
        assert(after[a] == before[a]);
        if b < last {
            assert(after[b] == before[b]);
        }
    }
    assert forall|k: Seq<char>|
        holds_key(after, k) <==> (k == entry.key@ || holds_key(before, k)) by {
        if holds_key(after, k) {
            let p = place_of(after, k);
            if p < last {
                assert(before[p].key@ == k);
            }
        }
        if holds_key(before, k) {
            let p = place_of(before, k);
            assert(after[p].key@ == k);
        }
        if k == entry.key@ {
            assert(after[last].key@ == k);
        }
    }
    assert forall|k: Seq<char>| holds_key(after, k) implies contents_of(after)[k] == contents_of(
        before,
    ).insert(entry.key@, entry.slot())[k] by {
        let p = place_of(after, k);
        lemma_entry_in_contents(after, p);
        if p != last {
            assert(after[p] == before[p]);
            lemma_entry_in_contents(before, p);
        }
    }
    assert(contents_of(after) =~= contents_of(before).insert(entry.key@, entry.slot()));
}

/// Taking the entry at place `i` out, with the last entry moved into its
/// place, keeps the keys unique and removes that key from the mapping.
proof fn lemma_discard_entry(before: Seq<Entry>, i: int)
    requires
        unique_keys(before),
        0 <= i < before.len(),
    ensures
        unique_keys(before.update(i, before.last()).drop_last()),
        contents_of(before.update(i, before.last()).drop_last()) == contents_of(before).remove(
            before[i].key@,
        ),
{
    let after = before.update(i, before.last()).drop_last();
    let last = before.len() - 1;
    let origin = |a: int| if a == i { last } else { a };
    assert forall|a: int| 0 <= a < after.len() implies #[trigger] after[a] == before[origin(a)] by {}
    assert forall|a: int, b: int| 0 <= a < b < after.len() implies (#[trigger] after[a]).key@ != (
    #[trigger] after[b]).key@ by {
        let oa = origin(a);
        let ob = origin(b);
        assert(after[a] == before[oa]);
        assert(after[b] == before[ob]);
        if oa < ob {
            assert(before[oa].key@ != before[ob].key@);
        } else {
            assert(before[ob].key@ != before[oa].key@);
        }
    }
    assert forall|k: Seq<char>|
        holds_key(after, k) <==> (k != before[i].key@ && holds_key(before, k)) by {
        if holds_key(after, k) {
            let p = place_of(after, k);
            let op = origin(p);
            assert(after[p] == before[op]);
            assert(before[op].key@ == k);
            if op < i {
                assert(before[op].key@ != before[i].key@);
            } else {
                assert(before[i].key@ != before[op].key@);
            }
        }
        if k != before[i].key@ && holds_key(before, k) {
            let p = place_of(before, k);
            if p == last {
                assert(after[i] == before[last]);
                assert(after[i].key@ == k);
            } else {
                assert(after[p] == before[p]);
                assert(after[p].key@ == k);
            }
        }
    }
    assert forall|k: Seq<char>| holds_key(after, k) implies contents_of(after)[k] == contents_of(
        before,
    )[k] by {
        let p = place_of(after, k);
        lemma_entry_in_contents(after, p);
        assert(after[p] == before[origin(p)]);
        lemma_entry_in_contents(before, origin(p));
    }
    assert(contents_of(after) =~= contents_of(before).remove(before[i].key@));
}

/// The keys and values of a listing.
pub open spec fn listed_values(listing: Seq<(Seq<char>, Slot)>) -> Seq<(Seq<char>, Seq<char>)> {
    Seq::new(listing.len(), |i: int| (listing[i].0, listing[i].1.value))
}

/// The keys and deadlines of a listing.
pub open spec fn listed_deadlines(listing: Seq<(Seq<char>, Slot)>) -> Seq<
    (Seq<char>, Option<u128>),
> {
    Seq::new(listing.len(), |i: int| (listing[i].0, listing[i].1.expires_at))
}

/// The keys of the entries, each with what it holds.
spec fn slots_of(entries: Seq<Entry>) -> Seq<(Seq<char>, Slot)> {
    Seq::new(entries.len(), |i: int| (entries[i].key@, entries[i].slot()))
}

/// The store: a list of entries in which no key occurs twice.
pub struct Store {
    entries: Vec<Entry>,
}

impl View for Store {
    type V = Map<Seq<char>, Slot>;

    closed spec fn view(&self) -> Map<Seq<char>, Slot> {
        contents_of(self.entries@)
    }
}

impl Store {
    #[verifier::type_invariant]
    spec fn well_formed(&self) -> bool {
        unique_keys(self.entries@)
    }

    /// An empty store: it holds no key, and its listing is empty.
    pub fn new() -> (store: Store)
        ensures
            store@ == Map::<Seq<char>, Slot>::empty(),
            store.listing() == Seq::<(Seq<char>, Slot)>::empty(),
    {
        let store = Store { entries: Vec::new() };
        assert(store@ =~= Map::<Seq<char>, Slot>::empty());
        assert(store.listing() =~= Seq::<(Seq<char>, Slot)>::empty());
        store
    }

    /// The place of the entry with the key, if there is one.
    fn find(&self, key: &str) -> (place: Option<usize>)
        ensures
            match place {
                Some(i) => i < self.entries@.len() && self.entries@[i as int].key@ == key@,
                None => !holds_key(self.entries@, key@),
            },
    {
        let mut i: usize = 0;
        while i < self.entries.len()
            invariant
                i <= self.entries@.len(),
                forall|j: int| 0 <= j < i ==> (#[trigger] self.entries@[j]).key@ != key@,
            decreases self.entries@.len() - i,
        {
            if same_text(self.entries[i].key.as_str(), key) {
                return Some(i);
            }
            i += 1;
        }
        None
    }

    /// Reads `key` at `now`: the value of a live entry, nothing for an
    /// absent or an expired one.
    pub fn get(&self, key: &str, now: u64) -> (value: Option<String>)
        ensures
            text_of(value) == lookup(self@, key@, now),
    {
        proof {
            use_type_invariant(self);
        }
        match self.find(key) {
            Some(i) => {
                proof {
                    lemma_entry_in_contents(self.entries@, i as int);
                }
                let entry = &self.entries[i];
                let live = match entry.expires_at {
                    Some(deadline) => (now as u128) < deadline,
                    None => true,
                };
                if live {
                    Some(entry.value.clone())
                } else {
                    None
                }
            },
            None => None,
        }
    }

    /// Puts an entry with the given deadline under `key`, replacing what was
    /// there.
    fn put(&mut self, key: String, value: String, expires_at: Option<u128>)
        ensures
            final(self)@ == old(self)@.insert(key@, Slot { value: value@, expires_at }),
    {
        proof {
            use_type_invariant(&*self);
        }
        let place = self.find(key.as_str());
        let ghost before = self.entries@;
        let entry = Entry { key, value, expires_at };
        let mut entries: Vec<Entry> = Vec::new();
        core::mem::swap(&mut self.entries, &mut entries);
        match place {
            Some(i) => {
                proof {
                    lemma_replace_entry(before, i as int, entry);
                }
                entries.set(i, entry);
            },
            None => {
                proof {
                    lemma_append_entry(before, entry);
                }
                entries.push(entry);
            },
        }
        self.entries = entries;
    }

    /// Writes `value` under `key` at `now`, replacing what was there. With a
    /// time to live the entry gets the deadline `now` plus that many seconds;
    /// without one it gets none, and a deadline that the key had is cleared.
    pub fn set(&mut self, key: String, value: String, ttl: Option<u64>, now: u64)
        ensures
            final(self)@ == written(old(self)@, key@, value@, ttl, now),
    {
        let expires_at = match ttl {
            Some(seconds) => Some(now as u128 + seconds as u128 * (MILLIS_PER_SECOND as u128)),
            None => None,
        };
        self.put(key, value, expires_at);
    }

    /// Removes every entry that has expired at `now` and returns the keys of
    /// the removed entries, each once. Entries without a deadline and entries
    /// whose deadline lies after `now` stay as they are.
    pub fn delete_if_expired(&mut self, now: u64) -> (removed: Vec<String>)
        ensures
            final(self)@ == swept(old(self)@, now),
            texts(removed@).to_set() == expired_keys(old(self)@, now),
            texts(removed@).no_duplicates(),
    {
        proof {
            use_type_invariant(&*self);
        }
        let ghost before = self.entries@;
        let mut entries: Vec<Entry> = Vec::new();
        core::mem::swap(&mut self.entries, &mut entries);
        let mut removed: Vec<String> = Vec::new();
        let mut i: usize = 0;
        assert(contents_of(before).remove_keys(texts(removed@).to_set()) =~= contents_of(before));
        while i < entries.len()
            invariant
                i <= entries@.len(),
                unique_keys(entries@),
                contents_of(entries@) == contents_of(before).remove_keys(texts(removed@).to_set()),
                forall|j: int| 0 <= j < i ==> is_live((#[trigger] entries@[j]).slot(), now),
                texts(removed@).to_set().subset_of(expired_keys(contents_of(before), now)),
                texts(removed@).no_duplicates(),
            decreases entries@.len() - i,
        {
            let live = match entries[i].expires_at {
                Some(deadline) => (now as u128) < deadline,
                None => true,
            };
            if live {
                i += 1;
            } else {
                let ghost current = entries@;
                let ghost gone = texts(removed@);
                proof {
                    lemma_entry_in_contents(current, i as int);
                    lemma_discard_entry(current, i as int);
                }
                let entry = entries.swap_remove(i);
                removed.push(entry.key);
                proof {
                    let key = entry.key@;
                    assert(texts(removed@) =~= gone.push(key));
                    assert(!gone.contains(key));
                    assert(gone.push(key).to_set() =~= gone.to_set().insert(key)) by {
                        assert forall|k: Seq<char>| gone.push(key).contains(k) <==> (k == key
                            || gone.contains(k)) by {
                            if gone.push(key).contains(k) {
                                let p = choose|p: int|
                                    0 <= p < gone.push(key).len() && gone.push(key)[p] == k;
                                if p < gone.len() {
                                    assert(gone[p] == k);
                                }
                            }
                            if gone.contains(k) {
                                let p = choose|p: int| 0 <= p < gone.len() && gone[p] == k;
                                assert(gone.push(key)[p] == k);
                            }
                            if k == key {
                                assert(gone.push(key)[gone.len() as int] == k);
                            }
                        }
                    }
                    assert(contents_of(entries@) =~= contents_of(before).remove_keys(
                        texts(removed@).to_set(),
                    ));
                    assert forall|j: int| 0 <= j < i implies is_live(
                        (#[trigger] entries@[j]).slot(),
                        now,
                    ) by {
                        assert(entries@[j] == current[j]);
                    }
                }
            }
        }
        proof {
            let kept = contents_of(entries@);
            let gone = texts(removed@).to_set();
            assert forall|k: Seq<char>| expired_keys(contents_of(before), now).contains(
                k,
            ) implies gone.contains(k) by {
                if !gone.contains(k) {
                    assert(kept.contains_key(k));
                    let p = place_of(entries@, k);
                    lemma_entry_in_contents(entries@, p);
                }
            }
            assert(gone =~= expired_keys(contents_of(before), now));
        }
        self.entries = entries;
        removed
    }

    /// The keys in the order in which the store keeps its entries, each
    /// with what it holds. A snapshot follows this order.
    pub closed spec fn listing(&self) -> Seq<(Seq<char>, Slot)> {
        slots_of(self.entries@)
    }

    /// A copy of everything the store holds: the value of each key, and for
    /// each key its deadline, both in the order of the listing. Each key of
    /// the store occurs once in either list.
    pub fn snapshot(&self) -> (data: RedisData)
        ensures
            data.listed_values() == listed_values(self.listing()),
            data.listed_deadlines() == listed_deadlines(self.listing()),
            data.values() == values_of(self@),
            data.deadlines() == deadlines_of(self@),
            restored(data.values(), data.deadlines()) == self@,
            self@.dom().finite(),
            data.store@.len() == self@.len(),
            data.expiry@.len() == self@.len(),
    {
        proof {
            use_type_invariant(self);
        }
        let mut store: Vec<(String, String)> = Vec::new();
        let mut expiry: Vec<(String, Option<u128>)> = Vec::new();
        let mut i: usize = 0;
        assert(values_of(contents_of(self.entries@.take(0))) =~= pairs_map(value_pairs(store@)));
        assert(deadlines_of(contents_of(self.entries@.take(0))) =~= pairs_map(
            deadline_pairs(expiry@),
        ));
        assert(contents_of(self.entries@.take(0)) =~= Map::<Seq<char>, Slot>::empty());
        while i < self.entries.len()
            invariant
                i <= self.entries@.len(),
                unique_keys(self.entries@),
                unique_keys(self.entries@.take(i as int)),
                pairs_map(value_pairs(store@)) == values_of(
                    contents_of(self.entries@.take(i as int)),
                ),
                pairs_map(deadline_pairs(expiry@)) == deadlines_of(
                    contents_of(self.entries@.take(i as int)),
                ),
                store@.len() == i,
                expiry@.len() == i,
                forall|j: int|
                    0 <= j < i ==> (#[trigger] store@[j]).0@ == self.entries@[j].key@ && store@[j].1@
                        == self.entries@[j].value@,
                forall|j: int|
                    0 <= j < i ==> (#[trigger] expiry@[j]).0@ == self.entries@[j].key@
                        && expiry@[j].1 == self.entries@[j].expires_at,
                contents_of(self.entries@.take(i as int)).dom().finite(),
                contents_of(self.entries@.take(i as int)).len() == i,
            decreases self.entries@.len() - i,
        {
            let entry = &self.entries[i];
            let ghost seen = self.entries@.take(i as int);
            let ghost old_store = store@;
            let ghost old_expiry = expiry@;
            store.push((entry.key.clone(), entry.value.clone()));
            expiry.push((entry.key.clone(), entry.expires_at));
            proof {
                assert(self.entries@.take(i + 1) =~= seen.push(*entry));
                assert(!holds_key(seen, entry.key@)) by {
                    if holds_key(seen, entry.key@) {
                        let p = place_of(seen, entry.key@);
                        assert(self.entries@[p].key@ == seen[p].key@);
                        assert(self.entries@[p].key@ != self.entries@[i as int].key@);
                    }
                }
                lemma_append_entry(seen, *entry);
                assert(value_pairs(store@).drop_last() =~= value_pairs(old_store));
                assert(deadline_pairs(expiry@).drop_last() =~= deadline_pairs(old_expiry));
                assert(values_of(contents_of(seen).insert(entry.key@, entry.slot()))
                    =~= values_of(contents_of(seen)).insert(entry.key@, entry.value@));
                assert(deadlines_of(contents_of(seen).insert(entry.key@, entry.slot()))
                    =~= deadlines_of(contents_of(seen)).insert(entry.key@, entry.expires_at));
                assert(!contents_of(seen).contains_key(entry.key@));
            }
            i += 1;
        }
        proof {
            assert(self.entries@.take(i as int) =~= self.entries@);
            assert(restored(values_of(self@), deadlines_of(self@)) =~= self@);
            assert(value_pairs(store@) =~= listed_values(self.listing()));
            assert(deadline_pairs(expiry@) =~= listed_deadlines(self.listing()));
        }
        RedisData { store, expiry }
    }

    /// Replaces everything the store holds by what the snapshot lists: every
    /// key that has a value there, with its deadline where the snapshot
    /// gives one.
    pub fn restore(&mut self, data: &RedisData)
        ensures
            final(self)@ == restored(data.values(), data.deadlines()),
    {
        self.entries = Vec::new();
        let mut i: usize = 0;
        let ghost listed = data.listed_values();
        assert(self@ =~= restored(pairs_map(listed.take(0)), data.deadlines()));
        while i < data.store.len()
            invariant
                i <= data.store@.len(),
                listed == data.listed_values(),
                self@ == restored(pairs_map(listed.take(i as int)), data.deadlines()),
            decreases data.store@.len() - i,
        {
            let key = data.store[i].0.clone();
            let value = data.store[i].1.clone();
            let expires_at = match find_deadline(&data.expiry, key.as_str()) {
                Some(deadline) => deadline,
                None => None,
            };
            let ghost seen = pairs_map(listed.take(i as int));
            proof {
                assert(listed.take(i + 1).drop_last() =~= listed.take(i as int));
                assert(restored(seen.insert(key@, value@), data.deadlines()) =~= restored(
                    seen,
                    data.deadlines(),
                ).insert(key@, Slot { value: value@, expires_at }));
            }
            self.put(key, value, expires_at);
            i += 1;
        }
        proof {
            assert(listed.take(i as int) =~= listed);
        }
    }
}

} // verus!
