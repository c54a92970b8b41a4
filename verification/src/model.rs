//! The mathematical model of the cache.
//!
//! A cache is described by the sequence of its entries, oldest insertion
//! first, its capacity, the record of recently evicted keys, newest first,
//! and two lookup counters. Every operation of the cache is a function on
//! this description; the executable cache is specified against it.

use vstd::prelude::*;

verus! {

/// One stored pair: the characters of the key and the bytes of the value.
pub type Entry = (Seq<char>, Seq<u8>);

/// The capacity of a cache for which none was chosen.
pub const DEFAULT_MAX_SIZE: usize = 64;

/// Sum of the lengths of all values in `entries`.
pub open spec fn total_len(entries: Seq<Entry>) -> nat
    decreases entries.len(),
{
    if entries.len() == 0 {
        0
    } else {
        total_len(entries.drop_last()) + entries.last().1.len()
    }
}

/// Some entry of `entries` has the key `key`.
pub open spec fn has_key(entries: Seq<Entry>, key: Seq<char>) -> bool {
    exists|i: int| 0 <= i < entries.len() && (#[trigger] entries[i]).0 == key
}

/// The place of an entry with the key `key`, where there is one.
pub open spec fn position(entries: Seq<Entry>, key: Seq<char>) -> int {
    choose|i: int| 0 <= i < entries.len() && (#[trigger] entries[i]).0 == key
}

/// The value stored under `key`, if any.
pub open spec fn lookup(entries: Seq<Entry>, key: Seq<char>) -> Option<Seq<u8>> {
    if has_key(entries, key) {
        Some(entries[position(entries, key)].1)
    } else {
        None
    }
}

/// No key occurs twice.
pub open spec fn keys_distinct(entries: Seq<Entry>) -> bool {
    forall|i: int, j: int|
        0 <= i < j < entries.len() ==> (#[trigger] entries[i]).0 != (#[trigger] entries[j]).0
}

/// `entries` with `key` bound to `value` as the newest entry; an older entry
/// for the same key is taken out.
pub open spec fn upsert(entries: Seq<Entry>, key: Seq<char>, value: Seq<u8>) -> Seq<Entry> {
    if has_key(entries, key) {
        entries.remove(position(entries, key)).push((key, value))
    } else {
        entries.push((key, value))
    }
}

/// How many of the oldest entries have to go before a value of `need` bytes
/// fits under `cap`: entries leave one by one, oldest first, as long as the
/// rest together with the new value is over the capacity.
pub open spec fn evictions_needed(entries: Seq<Entry>, need: nat, cap: nat) -> nat
    decreases entries.len(),
{
    if entries.len() == 0 || total_len(entries) + need <= cap {
        0
    } else {
        1 + evictions_needed(entries.drop_first(), need, cap)
    }
}

/// The first `cap` keys of `history`, or all of it if it is shorter.
pub open spec fn keep_newest(history: Seq<Seq<char>>, cap: nat) -> Seq<Seq<char>> {
    if history.len() <= cap {
        history
    } else {
        history.take(cap as int)
    }
}

/// `history` after the eviction of `key` was recorded: the key goes to the
/// front, and the record keeps at most `cap` keys.
pub open spec fn remember(history: Seq<Seq<char>>, key: Seq<char>, cap: nat) -> Seq<Seq<char>> {
    keep_newest(seq![key] + history, cap)
}

/// The keys of `evicted` from the last to the first: for entries in the
/// order in which they left, the newest eviction first.
pub open spec fn keys_newest_first(evicted: Seq<Entry>) -> Seq<Seq<char>> {
    Seq::new(evicted.len(), |i: int| evicted[evicted.len() - 1 - i].0)
}

/// `history` after the evictions of all of `evicted` were recorded, in the
/// order of the sequence: the new keys stand in front, newest first, and the
/// record keeps at most `cap` keys. Where nothing was evicted the record is
/// not touched.
pub open spec fn remember_all(history: Seq<Seq<char>>, evicted: Seq<Entry>, cap: nat) -> Seq<
    Seq<char>,
> {
    if evicted.len() == 0 {
        history
    } else {
        keep_newest(keys_newest_first(evicted) + history, cap)
    }
}

/// What a cache is, as far as its behaviour goes.
pub struct CacheState {
    /// The stored pairs, oldest insertion first.
    pub entries: Seq<Entry>,
    /// The bound on the summed length of the stored values, and on the
    /// number of keys in `history`.
    pub max_size: nat,
    /// Recently evicted keys, newest eviction first.
    pub history: Seq<Seq<char>>,
    /// Number of lookups so far.
    pub accesses: nat,
    /// Number of lookups so far that found their key.
    pub hits: nat,
}

impl CacheState {
    /// A cache that holds nothing, with the default capacity.
    pub open spec fn empty() -> CacheState {
        CacheState {
            entries: Seq::empty(),
            max_size: DEFAULT_MAX_SIZE as nat,
            history: Seq::empty(),
            accesses: 0,
            hits: 0,
        }
    }

    /// The same cache with another capacity. Nothing is evicted.
    pub open spec fn with_max_size(self, size: nat) -> CacheState {
        CacheState { max_size: size, ..self }
    }

    /// No key is stored twice, and no lookup was counted as a hit without
    /// being counted as an access.
    pub open spec fn valid(self) -> bool {
        &&& keys_distinct(self.entries)
        &&& self.hits <= self.accesses
    }

    /// Both bounds that the capacity sets are kept.
    pub open spec fn within_bounds(self) -> bool {
        &&& self.current_size() <= self.max_size
        &&& self.history.len() <= self.max_size
    }

    /// Summed length of the stored values.
    pub open spec fn current_size(self) -> nat {
        total_len(self.entries)
    }

    pub open spec fn contains_key(self, key: Seq<char>) -> bool {
        has_key(self.entries, key)
    }

    pub open spec fn value_of(self, key: Seq<char>) -> Option<Seq<u8>> {
        lookup(self.entries, key)
    }

    pub open spec fn has_evicted_recently(self, key: Seq<char>) -> bool {
        self.history.contains(key)
    }

    /// A value of `len` bytes can be stored at all.
    pub open spec fn accepts(self, len: nat) -> bool {
        len <= self.max_size
    }

    /// The entries that leave to make room for a value of `need` bytes,
    /// oldest first.
    pub open spec fn evicted_for(self, need: nat) -> Seq<Entry> {
        self.entries.take(evictions_needed(self.entries, need, self.max_size) as int)
    }

    /// The entries that stay when room is made for a value of `need` bytes.
    pub open spec fn kept_for(self, need: nat) -> Seq<Entry> {
        self.entries.skip(evictions_needed(self.entries, need, self.max_size) as int)
    }

    /// The value that an insertion under `key` of `need` bytes replaces: the
    /// one stored under `key` after room was made.
    pub open spec fn replaced_by(self, key: Seq<char>, need: nat) -> Option<Seq<u8>> {
        lookup(self.kept_for(need), key)
    }

    /// The cache after the insertion of `value` under `key`. A value longer
    /// than the capacity is refused and leaves the cache as it was. Else the
    /// oldest entries are evicted until the value fits, their keys are
    /// recorded, and the pair becomes the newest entry.
    pub open spec fn insert(self, key: Seq<char>, value: Seq<u8>) -> CacheState {
        if self.accepts(value.len()) {
            CacheState {
                entries: upsert(self.kept_for(value.len()), key, value),
                history: remember_all(self.history, self.evicted_for(value.len()), self.max_size),
                ..self
            }
        } else {
            self
        }
    }

    /// The cache after a lookup of `key`: only the counters move.
    pub open spec fn get(self, key: Seq<char>) -> CacheState {
        CacheState {
            accesses: self.accesses + 1,
            hits: if self.contains_key(key) {
                self.hits + 1
            } else {
                self.hits
            },
            ..self
        }
    }
}

} // verus!
