//! What holds of every cache state, stated over the model that the contracts
//! of the executable cache speak of.

use crate::lemmas::{
    lemma_distinct_subrange, lemma_evictions_needed, lemma_position_unique,
    lemma_remember_all_len, lemma_total_len_split, lemma_upsert,
};
use crate::model::{has_key, total_len, CacheState};
use vstd::prelude::*;

verus! {

/// The empty state is valid, and an insertion, a lookup and a change of the
/// capacity take a valid state to a valid state.
pub proof fn lemma_valid_preserved(s: CacheState, key: Seq<char>, value: Seq<u8>, size: nat)
    requires
        s.valid(),
    ensures
        CacheState::empty().valid(),
        s.insert(key, value).valid(),
        s.get(key).valid(),
        s.with_max_size(size).valid(),
{
    let need = value.len();
    lemma_evictions_needed(s.entries, need, s.max_size);
    lemma_distinct_subrange(
        s.entries,
        s.entries.len() - s.kept_for(need).len(),
        s.entries.len() as int,
    );
    lemma_upsert(s.kept_for(need), key, value);
}

/// Bounds: the empty state keeps both bounds that the capacity sets, on the
/// summed length of the values and on the length of the record of evicted
/// keys; so does every state reached from one that keeps them by an
/// insertion or a lookup, and by a change of the capacity to a size that is
/// below neither.
pub proof fn lemma_bounds_preserved(s: CacheState, key: Seq<char>, value: Seq<u8>, size: nat)
    requires
        s.valid(),
        s.within_bounds(),
    ensures
        CacheState::empty().within_bounds(),
        s.insert(key, value).within_bounds(),
        s.get(key).within_bounds(),
        s.with_max_size(size).within_bounds() <==> s.current_size() <= size && s.history.len()
            <= size,
{
    if s.accepts(value.len()) {
        lemma_insert_keeps_capacity(s, key, value);
    }
    lemma_history_bounded(s, key, value);
}

/// Capacity: after the insertion of a value that is not longer than the
/// capacity, the stored values together are not longer than the capacity,
/// whatever the state was before.
pub proof fn lemma_insert_keeps_capacity(s: CacheState, key: Seq<char>, value: Seq<u8>)
    requires
        s.valid(),
        s.accepts(value.len()),
    ensures
        s.insert(key, value).current_size() <= s.max_size,
        s.insert(key, value).max_size == s.max_size,
{
    let need = value.len();
    lemma_evictions_needed(s.entries, need, s.max_size);
    lemma_distinct_subrange(
        s.entries,
        s.entries.len() - s.kept_for(need).len(),
        s.entries.len() as int,
    );
    lemma_upsert(s.kept_for(need), key, value);
}

/// Size accounting: an insertion changes the summed length by exactly what
/// left and what came. The evicted values and the replaced value are
/// subtracted, the new value is added.
pub proof fn lemma_insert_size(s: CacheState, key: Seq<char>, value: Seq<u8>)
    requires
        s.valid(),
        s.accepts(value.len()),
    ensures
        s.insert(key, value).current_size() + total_len(s.evicted_for(value.len())) + (
        match s.replaced_by(key, value.len()) {
            Some(old) => old.len(),
            None => 0,
        }) == s.current_size() + value.len(),
{
    let need = value.len();
    lemma_evictions_needed(s.entries, need, s.max_size);
    let n = s.entries.len() - s.kept_for(need).len();
    lemma_total_len_split(s.entries, n);
    lemma_distinct_subrange(s.entries, n, s.entries.len() as int);
    lemma_upsert(s.kept_for(need), key, value);
}

/// Eviction order: the entries that leave are the oldest ones, and no more
/// of them than needed. The evicted entries followed by the kept ones are
/// the entries in their order; the kept ones leave room for the value; and
/// with one eviction fewer there would be no room.
pub proof fn lemma_eviction_order(s: CacheState, need: nat)
    requires
        s.accepts(need),
    ensures
        s.evicted_for(need) + s.kept_for(need) == s.entries,
        total_len(s.kept_for(need)) + need <= s.max_size,
        forall|m: int|
            0 <= m < s.evicted_for(need).len() ==> total_len(#[trigger] s.entries.skip(m)) + need
                > s.max_size,
{
    lemma_evictions_needed(s.entries, need, s.max_size);
    assert(s.evicted_for(need) + s.kept_for(need) =~= s.entries);
}

/// Eviction order, entry by entry: if an entry leaves to make room, every
/// entry that was inserted before it leaves too.
pub proof fn lemma_older_leaves_first(s: CacheState, need: nat, older: int, newer: int)
    requires
        s.valid(),
        0 <= older < newer < s.entries.len(),
        !has_key(s.kept_for(need), s.entries[newer].0),
    ensures
        !has_key(s.kept_for(need), s.entries[older].0),
{
    lemma_evictions_needed(s.entries, need, s.max_size);
    let kept = s.kept_for(need);
    let n = s.entries.len() - kept.len();
    if newer >= n {
        assert(kept[newer - n] == s.entries[newer]);
    }
    if has_key(kept, s.entries[older].0) {
        let i = choose|i: int| 0 <= i < kept.len() && (#[trigger] kept[i]).0 == s.entries[older].0;
        assert(kept[i] == s.entries[n + i]);
        assert(s.entries[older].0 != s.entries[n + i].0);
    }
}

/// Eviction order does not depend on lookups: after a lookup the same
/// entries would leave for the same value.
pub proof fn lemma_lookup_keeps_order(s: CacheState, key: Seq<char>, need: nat)
    ensures
        s.get(key).entries == s.entries,
        s.get(key).evicted_for(need) == s.evicted_for(need),
        s.get(key).kept_for(need) == s.kept_for(need),
{
}

/// History bound: an insertion never makes a record of evicted keys that
/// was within the capacity longer than the capacity, and after an insertion
/// that evicted anything the record is within the capacity in any case.
pub proof fn lemma_history_bounded(s: CacheState, key: Seq<char>, value: Seq<u8>)
    ensures
        s.history.len() <= s.max_size ==> s.insert(key, value).history.len() <= s.max_size,
        s.accepts(value.len()) && s.evicted_for(value.len()).len() > 0 ==> s.insert(
            key,
            value,
        ).history.len() <= s.max_size,
        s.get(key).history == s.history,
{
    lemma_remember_all_len(s.history, s.evicted_for(value.len()), s.max_size);
}

/// Newest first: after an insertion that evicted anything, the key of the
/// entry that left last is at the front of the record, unless the capacity
/// is zero and the record holds nothing.
pub proof fn lemma_newest_eviction_in_front(s: CacheState, key: Seq<char>, value: Seq<u8>)
    requires
        s.accepts(value.len()),
        s.evicted_for(value.len()).len() > 0,
        s.max_size > 0,
    ensures
        s.insert(key, value).history.len() > 0,
        s.insert(key, value).history[0] == s.evicted_for(value.len()).last().0,
        s.insert(key, value).has_evicted_recently(s.evicted_for(value.len()).last().0),
{
}

/// Counters: a lookup is counted exactly once as an access, and as a hit
/// exactly when the key is stored; an insertion moves neither counter. The
/// hits never exceed the accesses.
pub proof fn lemma_counters(s: CacheState, key: Seq<char>, value: Seq<u8>)
    requires
        s.valid(),
    ensures
        s.hits <= s.accesses,
        s.get(key).accesses == s.accesses + 1,
        s.get(key).hits == s.hits + (if s.contains_key(key) {
            1nat
        } else {
            0nat
        }),
        s.get(key).hits <= s.get(key).accesses,
        s.insert(key, value).accesses == s.accesses,
        s.insert(key, value).hits == s.hits,
{
}

/// Lookups change nothing that a lookup can see: after a lookup of any key,
/// every key has the value it had, and the summed length, the order of the
/// entries and the record of evicted keys are as before.
pub proof fn lemma_lookup_idempotent(s: CacheState, key: Seq<char>, other: Seq<char>)
    ensures
        s.get(key).value_of(other) == s.value_of(other),
        s.get(key).contains_key(other) == s.contains_key(other),
        s.get(key).current_size() == s.current_size(),
        s.get(key).entries == s.entries,
        s.get(key).history == s.history,
        s.get(key).max_size == s.max_size,
{
}

/// What was inserted can be looked up: after an accepted insertion the key
/// is bound to the value, as the newest entry.
pub proof fn lemma_inserted_is_stored(s: CacheState, key: Seq<char>, value: Seq<u8>)
    requires
        s.valid(),
        s.accepts(value.len()),
    ensures
        s.insert(key, value).value_of(key) == Some(value),
        s.insert(key, value).contains_key(key),
        s.insert(key, value).entries.last() == (key, value),
{
    let need = value.len();
    lemma_evictions_needed(s.entries, need, s.max_size);
    lemma_distinct_subrange(
        s.entries,
        s.entries.len() - s.kept_for(need).len(),
        s.entries.len() as int,
    );
    lemma_upsert(s.kept_for(need), key, value);
}

/// Overwriting: when the key still has its entry after room was made, the
/// insertion replaces the value that the key had before, and the summed
/// length of what stays changes by the difference of the two lengths.
pub proof fn lemma_overwrite(s: CacheState, key: Seq<char>, value: Seq<u8>)
    requires
        s.valid(),
        s.accepts(value.len()),
        has_key(s.kept_for(value.len()), key),
    ensures
        s.value_of(key) is Some,
        s.replaced_by(key, value.len()) == s.value_of(key),
        s.insert(key, value).current_size() + s.value_of(key)->0.len() == total_len(
            s.kept_for(value.len()),
        ) + value.len(),
{
    let need = value.len();
    lemma_evictions_needed(s.entries, need, s.max_size);
    let kept = s.kept_for(need);
    let n = s.entries.len() - kept.len();
    lemma_distinct_subrange(s.entries, n, s.entries.len() as int);
    let i = choose|i: int| 0 <= i < kept.len() && (#[trigger] kept[i]).0 == key;
    lemma_position_unique(kept, key, i);
    assert(kept[i] == s.entries[n + i]);
    lemma_position_unique(s.entries, key, n + i);
    lemma_upsert(kept, key, value);
}

/// Without eviction an insertion under a stored key replaces exactly the
/// value that the key had, wherever its entry stood.
pub proof fn lemma_overwrite_in_place(s: CacheState, key: Seq<char>, value: Seq<u8>)
    requires
        s.valid(),
        s.contains_key(key),
        s.current_size() + value.len() <= s.max_size,
    ensures
        s.replaced_by(key, value.len()) == s.value_of(key),
        s.insert(key, value).current_size() + s.value_of(key)->0.len() == s.current_size()
            + value.len(),
        s.insert(key, value).history == s.history,
{
    assert(s.kept_for(value.len()) =~= s.entries);
    assert(s.evicted_for(value.len()) =~= Seq::<(Seq<char>, Seq<u8>)>::empty());
    lemma_overwrite(s, key, value);
}

} // verus!
