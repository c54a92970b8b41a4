//! The executable cache.

use crate::lemmas::{
    lemma_distinct_subrange, lemma_position_unique, lemma_remember_step,
    lemma_total_len_drop_first, lemma_total_len_push, lemma_total_len_remove, lemma_upsert,
};
use crate::model::{
    evictions_needed, keys_distinct, remember, remember_all, total_len, CacheState,
    DEFAULT_MAX_SIZE,
};
use crate::trusted::{
    bytes_content, map_contains_key, map_entries, map_get, map_insert, map_new, map_pop_front,
};
use bytes::Bytes;
use linked_hash_map::LinkedHashMap;
use std::collections::VecDeque;
use vstd::prelude::*;

verus! {

/// Number of keys for which a new cache reserves room in its eviction
/// record. It saves reallocations and bounds nothing.
const HISTORY_RESERVE: usize = 1000;

/// Why an insertion was refused.
#[derive(Clone, Copy, Debug, PartialEq, Eq, Structural)]
pub enum CacheError {
    /// The value alone is longer than the capacity, so no eviction could
    /// make room for it.
    ValueTooLarge { len: usize, max_size: usize },
}

/// A cache from keys to byte strings that keeps the summed length of its
/// values under a capacity. When room is needed the entry that was inserted
/// longest ago leaves first; a lookup does not renew an entry. The keys of
/// the entries that left most recently are kept in a bounded record.
pub struct LRU {
    items: LinkedHashMap<String, Bytes>,
    max_size: usize,
    current_size: usize,
    history: VecDeque<String>,
    accesses: usize,
    hits: usize,
}

impl View for LRU {
    type V = CacheState;

    closed spec fn view(&self) -> CacheState {
        CacheState {
            entries: map_entries(self.items),
            max_size: self.max_size as nat,
            history: self.history.deep_view(),
            accesses: self.accesses as nat,
            hits: self.hits as nat,
        }
    }
}

/// Records the eviction of `key` in `history`, which keeps at most `cap`
/// keys.
fn record_eviction(history: &mut VecDeque<String>, key: String, cap: usize)
    ensures
        final(history).deep_view() == remember(old(history).deep_view(), key@, cap as nat),
{
    if cap == 0 {
        history.clear();
    } else {
        history.truncate(cap - 1);
        history.push_front(key);
    }
    assert(history.deep_view() =~= remember(old(history).deep_view(), key@, cap as nat));
}

impl LRU {
    /// The invariant of the representation: the running total is the summed
    /// length of the stored values, no key is stored twice, and the hits are
    /// among the accesses.
    pub closed spec fn wf(&self) -> bool {
        &&& self.current_size == total_len(map_entries(self.items))
        &&& keys_distinct(map_entries(self.items))
        &&& self.hits <= self.accesses
    }

    /// A well-formed cache has a valid state, whose numbers are within the
    /// range of `usize`.
    pub proof fn lemma_wf_valid(&self)
        requires
            self.wf(),
        ensures
            self@.valid(),
            self@.current_size() <= usize::MAX,
            self@.max_size <= usize::MAX,
            self@.accesses <= usize::MAX,
    {
    }

    /// An empty cache with the default capacity.
    pub fn new() -> (cache: Self)
        ensures
            cache.wf(),
            cache@ == CacheState::empty(),
    {
        let cache = LRU {
            items: map_new(),
            max_size: DEFAULT_MAX_SIZE,
            accesses: 0,
            hits: 0,
            current_size: 0,
            history: VecDeque::with_capacity(HISTORY_RESERVE),
        };
        assert(cache.history.deep_view() =~= Seq::<Seq<char>>::empty());
        cache
    }

    /// Sets the capacity. Meant for a cache that was just made: on a cache
    /// that holds entries nothing is evicted before the next insertion.
    pub fn max_size(self, size: usize) -> (cache: Self)
        requires
            self.wf(),
        ensures
            cache.wf(),
            cache@ == self@.with_max_size(size as nat),
    {
        let mut cache = self;
        cache.max_size = size;
        cache
    }

    /// The summed length of the stored values.
    pub fn current_size(self) -> (size: usize)
        requires
            self.wf(),
        ensures
            size == self@.current_size(),
    {
        self.current_size
    }

    /// The record of recently evicted keys, newest eviction first.
    pub fn history(&self) -> (history: &VecDeque<String>)
        ensures
            history.deep_view() == self@.history,
    {
        &self.history
    }

    /// Number of lookups so far.
    pub fn accesses(&self) -> (n: usize)
        ensures
            n == self@.accesses,
    {
        self.accesses
    }

    /// Number of lookups so far that found their key.
    pub fn hits(&self) -> (n: usize)
        ensures
            n == self@.hits,
    {
        self.hits
    }

    /// Whether `key` is among the recently evicted keys.
    pub fn has_evicted_recently(&self, key: &str) -> (found: bool)
        ensures
            found == self@.has_evicted_recently(key@),
    {
        let mut i: usize = 0;
        while i < self.history.len()
            invariant
                i <= self.history.len(),
                forall|j: int| 0 <= j < i ==> self.history.deep_view()[j] != key@,
            decreases self.history.len() - i,
        {
            if self.history[i].eq(key) {
                assert(self.history.deep_view()[i as int] == key@);
                return true;
            }
            i += 1;
        }
        false
    }

    /// Whether a value is stored under `key`. No counter moves.
    pub fn contains_key(&self, key: &str) -> (found: bool)
        ensures
            found == self@.contains_key(key@),
    {
        map_contains_key(&self.items, key)
    }

    /// Stores `value` under `key` as the newest entry and returns the value
    /// that it replaces, if any.
    ///
    /// A value longer than the capacity is refused, and the cache stays as
    /// it was. Else the oldest entries leave, one by one, until the value
    /// fits beside the rest, and the key of each is recorded as recently
    /// evicted. An entry that `key` still has after that is replaced; one
    /// that had to leave is recorded like any other, and nothing is returned
    /// for it.
    pub fn insert(&mut self, key: String, value: Bytes) -> (r: Result<Option<Bytes>, CacheError>)
        requires
            old(self).wf(),
        ensures
            final(self).wf(),
            final(self)@ == old(self)@.insert(key@, bytes_content(value)),
            r is Ok <==> old(self)@.accepts(bytes_content(value).len()),
            r is Ok ==> final(self)@.current_size() <= final(self)@.max_size,
            match r {
                Ok(Some(prev)) => old(self)@.replaced_by(key@, bytes_content(value).len()) == Some(
                    bytes_content(prev),
                ),
                Ok(None) => old(self)@.replaced_by(key@, bytes_content(value).len()) is None,
                Err(e) => e == (CacheError::ValueTooLarge {
                    len: bytes_content(value).len() as usize,
                    max_size: old(self)@.max_size as usize,
                }),
            },
    {
        let need: usize = value.len();
        if need > self.max_size {
            return Err(CacheError::ValueTooLarge { len: need, max_size: self.max_size });
        }
        let ghost before = self@;
        let ghost mut evicted: int = 0;
        proof {
            assert(before.entries.skip(0) =~= before.entries);
            assert(before.entries.take(0) =~= Seq::<(Seq<char>, Seq<u8>)>::empty());
        }
        while self.current_size > self.max_size || need > self.max_size - self.current_size
            invariant
                self.wf(),
                need <= self.max_size,
                self@.max_size == before.max_size,
                self@.accesses == before.accesses,
                self@.hits == before.hits,
                keys_distinct(before.entries),
                0 <= evicted <= before.entries.len(),
                self@.entries == before.entries.skip(evicted),
                self@.history == remember_all(
                    before.history,
                    before.entries.take(evicted),
                    before.max_size,
                ),
                evicted + evictions_needed(self@.entries, need as nat, before.max_size)
                    == evictions_needed(before.entries, need as nat, before.max_size),
            decreases self@.entries.len(),
        {
            let popped = map_pop_front(&mut self.items);
            assert(popped is Some);
            if let Some((popped_key, popped_value)) = popped {
                proof {
                    lemma_total_len_drop_first(before.entries.skip(evicted));
                    lemma_distinct_subrange(
                        before.entries,
                        evicted + 1,
                        before.entries.len() as int,
                    );
                    assert(before.entries.skip(evicted).drop_first() =~= before.entries.skip(
                        evicted + 1,
                    ));
                    lemma_remember_step(
                        before.history,
                        before.entries.take(evicted + 1),
                        before.max_size,
                    );
                    assert(before.entries.take(evicted + 1).drop_last() =~= before.entries.take(
                        evicted,
                    ));
                    assert(before.entries.take(evicted + 1).last() == before.entries.skip(
                        evicted,
                    )[0]);
                }
                self.current_size -= popped_value.len();
                record_eviction(&mut self.history, popped_key, self.max_size);
                proof {
                    evicted = evicted + 1;
                }
            }
        }
        let ghost kept = self@.entries;
        let prev = map_insert(&mut self.items, key, value);
        self.current_size += need;
        if let Some(old_value) = &prev {
            proof {
                let i = choose|i: int|
                    {
                        &&& 0 <= i < kept.len()
                        &&& (#[trigger] kept[i]).0 == key@
                        &&& kept[i].1 == bytes_content(*old_value)
                        &&& map_entries(self.items) == kept.remove(i).push(
                            (key@, bytes_content(value)),
                        )
                    };
                lemma_position_unique(kept, key@, i);
                lemma_total_len_remove(kept, i);
                lemma_total_len_push(kept.remove(i), (key@, bytes_content(value)));
            }
            self.current_size -= old_value.len();
        } else {
            proof {
                lemma_total_len_push(kept, (key@, bytes_content(value)));
            }
        }
        proof {
            lemma_upsert(kept, key@, bytes_content(value));
        }
        Ok(prev)
    }

    /// Looks `key` up. The lookup is counted, as a hit if the key is stored,
    /// and changes nothing else: the entry keeps its place in the eviction
    /// order.
    pub fn get(&mut self, key: &str) -> (found: Option<&Bytes>)
        requires
            old(self).wf(),
            old(self)@.accesses < usize::MAX,
        ensures
            final(self).wf(),
            final(self)@ == old(self)@.get(key@),
            match found {
                Some(value) => old(self)@.value_of(key@) == Some(bytes_content(*value)),
                None => old(self)@.value_of(key@) is None,
            },
    {
        self.accesses += 1;
        if map_contains_key(&self.items, key) {
            self.hits += 1;
        }
        let found = map_get(&self.items, key);
        proof {
            if let Some(value) = found {
                let entries = map_entries(self.items);
                let i = choose|i: int|
                    0 <= i < entries.len() && (#[trigger] entries[i]).0 == key@ && entries[i].1
                        == bytes_content(*value);
                lemma_position_unique(entries, key@, i);
            }
        }
        found
    }
}

} // verus!
