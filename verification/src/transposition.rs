//! The transposition table: search results cached by position hash, where a
//! deeper result is never displaced by a shallower one.

use vstd::prelude::*;
use rustc_hash::FxHashMap;
use shakmaty::Move;

verus! {

/// `rustc_hash::FxBuildHasher`, the hasher of the table's map. Its contents
/// are not looked into.
#[verifier::external_type_specification]
#[verifier::external_body]
pub struct ExFxBuildHasher(rustc_hash::FxBuildHasher);

/// How a stored value relates to the true value of the position.
#[derive(Clone, Copy, Debug, PartialEq, Eq, Structural)]
pub enum Bound {
    /// The value is the true value.
    Exact,
    /// The true value is at least the stored one.
    LowerBound,
    /// The true value is at most the stored one.
    UpperBound,
}

/// One cached search result.
pub struct TTEntry {
    /// Score of the position for the side to move.
    pub value: i32,
    /// Best move found, if any.
    pub best_move: Option<Move>,
    /// Depth of the search that produced the entry.
    pub depth: u16,
    /// How `value` bounds the true value.
    pub bound: Bound,
}

impl Clone for TTEntry {
    fn clone(&self) -> (copy: Self)
        ensures
            copy == *self,
    {
        TTEntry {
            value: self.value,
            best_move: match &self.best_move {
                Some(m) => Some(m.clone()),
                None => None,
            },
            depth: self.depth,
            bound: self.bound,
        }
    }
}

/// The map behind the table: a hash map with the Fx hasher.
pub type EntryMap = FxHashMap<u64, TTEntry>;

/// Cached search results, keyed by position hash.
pub struct TranspositionTable {
    pub table: EntryMap,
}

/// Builds an empty `FxHashMap` with `Default::default`. Trusted: the new map
/// has no entries.
#[verifier::external_body]
fn empty_map() -> (fresh: EntryMap)
    ensures
        forall|key: u64| !fresh@.contains_key(key),
{
    FxHashMap::default()
}

/// Calls `HashMap::get` on a map that hashes with `FxBuildHasher`. Trusted:
/// the hasher is deterministic, so the map finds exactly the keys it holds.
#[verifier::external_body]
fn map_get<'a>(entries: &'a EntryMap, key: u64) -> (found: Option<&'a TTEntry>)
    ensures
        found == if entries@.contains_key(key) {
            Some(&entries@[key])
        } else {
            None
        },
{
    entries.get(&key)
}

/// Calls `HashMap::insert` on a map that hashes with `FxBuildHasher`.
/// Trusted: afterwards the key maps to the new value and every other key is
/// as before.
#[verifier::external_body]
fn map_insert(entries: &mut EntryMap, key: u64, value: TTEntry)
    ensures
        final(entries)@ == old(entries)@.insert(key, value),
{
    entries.insert(key, value);
}

/// What a table holds after `entry` is offered for `hash`: the entry goes in
/// when the key is new or the entry is strictly deeper than the one stored;
/// otherwise the table stays as it is.
pub open spec fn store_spec(table: Map<u64, TTEntry>, hash: u64, entry: TTEntry) -> Map<
    u64,
    TTEntry,
> {
    if table.contains_key(hash) && entry.depth <= table[hash].depth {
        table
    } else {
        table.insert(hash, entry)
    }
}

/// What a table holds after the entries of `entries` are offered for `hash`
/// one after the other.
pub open spec fn store_all(table: Map<u64, TTEntry>, hash: u64, entries: Seq<TTEntry>) -> Map<
    u64,
    TTEntry,
>
    decreases entries.len(),
{
    if entries.len() == 0 {
        table
    } else {
        store_spec(store_all(table, hash, entries.drop_last()), hash, entries.last())
    }
}

/// The greatest depth among `entries`, or 0 when there is none.
pub open spec fn deepest(entries: Seq<TTEntry>) -> int
    decreases entries.len(),
{
    if entries.len() == 0 {
        0
    } else if entries.last().depth > deepest(entries.drop_last()) {
        entries.last().depth as int
    } else {
        deepest(entries.drop_last())
    }
}

impl View for TranspositionTable {
    type V = Map<u64, TTEntry>;

    open spec fn view(&self) -> Map<u64, TTEntry> {
        self.table@
    }
}

impl TranspositionTable {
    /// An empty table.
    pub fn new() -> (table: Self)
        ensures
            table@ == Map::<u64, TTEntry>::empty(),
    {
        Self { table: empty_map() }
    }

    /// Offers an entry for a key; see `store_spec`.
    pub fn store(&mut self, hash: u64, entry: TTEntry)
        ensures
            final(self)@ == store_spec(old(self)@, hash, entry),
    {
        let replace = match map_get(&self.table, hash) {
            Some(existing) => entry.depth > existing.depth,
            None => true,
        };
        if replace {
            map_insert(&mut self.table, hash, entry);
        }
    }

    /// The entry stored for a key, if any. The table is not changed.
    pub fn lookup(&self, hash: u64) -> (found: Option<&TTEntry>)
        ensures
            found == if self@.contains_key(hash) {
                Some(&self@[hash])
            } else {
                None
            },
    {
        map_get(&self.table, hash)
    }
}

/// Storing touches no key but its own.
pub proof fn lemma_store_other_keys(
    table: Map<u64, TTEntry>,
    hash: u64,
    entry: TTEntry,
    other: u64,
)
    requires
        other != hash,
    ensures
        store_spec(table, hash, entry).contains_key(other) == table.contains_key(other),
        table.contains_key(other) ==> store_spec(table, hash, entry)[other] == table[other],
{
}

/// After any run of stores to one key, the key is present as soon as one
/// entry was offered, and its depth is the greatest depth ever stored there:
/// that of the entries offered and of the entry that was there before.
pub proof fn lemma_depth_is_maximum(table: Map<u64, TTEntry>, hash: u64, entries: Seq<TTEntry>)
    ensures
        entries.len() > 0 ==> store_all(table, hash, entries).contains_key(hash),
        store_all(table, hash, entries).contains_key(hash) == (table.contains_key(hash)
            || entries.len() > 0),
        store_all(table, hash, entries).contains_key(hash) ==> store_all(
            table,
            hash,
            entries,
        )[hash].depth == if table.contains_key(hash) && table[hash].depth >= deepest(entries) {
            table[hash].depth as int
        } else {
            deepest(entries)
        },
    decreases entries.len(),
{
    if entries.len() > 0 {
        lemma_depth_is_maximum(table, hash, entries.drop_last());
    }
}

} // verus!
