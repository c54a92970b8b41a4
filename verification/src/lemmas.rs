//! Facts about the sequence functions of the model, used by the cache and by
//! the laws of the cache state.

use crate::model::{
    evictions_needed, has_key, keep_newest, keys_distinct, keys_newest_first, lookup, position,
    remember, remember_all, total_len, upsert, Entry,
};
use vstd::prelude::*;

verus! {

/// The summed length of a concatenation is the sum of the summed lengths.
pub proof fn lemma_total_len_concat(a: Seq<Entry>, b: Seq<Entry>)
    ensures
        total_len(a + b) == total_len(a) + total_len(b),
    decreases b.len(),
{
    if b.len() == 0 {
        assert(a + b =~= a);
    } else {
        assert((a + b).drop_last() =~= a + b.drop_last());
        assert((a + b).last() == b.last());
        lemma_total_len_concat(a, b.drop_last());
    }
}

/// The summed length of a single entry is the length of its value.
pub proof fn lemma_total_len_single(e: Entry)
    ensures
        total_len(seq![e]) == e.1.len(),
{
    assert(seq![e].drop_last() =~= Seq::<Entry>::empty());
    assert(total_len(seq![e].drop_last()) == 0);
}

/// Cutting a sequence in two cuts its summed length in two.
pub proof fn lemma_total_len_split(s: Seq<Entry>, n: int)
    requires
        0 <= n <= s.len(),
    ensures
        total_len(s) == total_len(s.take(n)) + total_len(s.skip(n)),
{
    assert(s =~= s.take(n) + s.skip(n));
    lemma_total_len_concat(s.take(n), s.skip(n));
}

/// Without its first entry a sequence is shorter by that entry's value.
pub proof fn lemma_total_len_drop_first(s: Seq<Entry>)
    requires
        s.len() > 0,
    ensures
        total_len(s) == s[0].1.len() + total_len(s.drop_first()),
{
    assert(s =~= seq![s[0]] + s.drop_first());
    lemma_total_len_concat(seq![s[0]], s.drop_first());
    lemma_total_len_single(s[0]);
}

/// Without its entry at `i` a sequence is shorter by that entry's value.
pub proof fn lemma_total_len_remove(s: Seq<Entry>, i: int)
    requires
        0 <= i < s.len(),
    ensures
        total_len(s.remove(i)) + s[i].1.len() == total_len(s),
{
    lemma_total_len_split(s, i);
    lemma_total_len_drop_first(s.skip(i));
    assert(s.skip(i).drop_first() =~= s.skip(i + 1));
    assert(s.remove(i) =~= s.take(i) + s.skip(i + 1));
    lemma_total_len_concat(s.take(i), s.skip(i + 1));
}

/// With one more entry at the end a sequence is longer by that entry's value.
pub proof fn lemma_total_len_push(s: Seq<Entry>, e: Entry)
    ensures
        total_len(s.push(e)) == total_len(s) + e.1.len(),
{
    assert(s.push(e).drop_last() =~= s);
}

/// Among distinct keys, an entry with the key is the entry that `position`
/// names.
pub proof fn lemma_position_unique(entries: Seq<Entry>, key: Seq<char>, i: int)
    requires
        keys_distinct(entries),
        0 <= i < entries.len(),
        entries[i].0 == key,
    ensures
        has_key(entries, key),
        position(entries, key) == i,
        lookup(entries, key) == Some(entries[i].1),
{
    let p = position(entries, key);
    assert(0 <= p < entries.len() && entries[p].0 == key);
    if p < i {
        assert(entries[p].0 != entries[i].0);
    } else if i < p {
        assert(entries[i].0 != entries[p].0);
    }
}

/// A part of a sequence with distinct keys has distinct keys.
pub proof fn lemma_distinct_subrange(entries: Seq<Entry>, from: int, to: int)
    requires
        keys_distinct(entries),
        0 <= from <= to <= entries.len(),
    ensures
        keys_distinct(entries.subrange(from, to)),
{
    let part = entries.subrange(from, to);
    assert forall|i: int, j: int| 0 <= i < j < part.len() implies (#[trigger] part[i]).0
        != (#[trigger] part[j]).0 by {
        assert(part[i] == entries[from + i]);
        assert(part[j] == entries[from + j]);
    }
}

/// What `upsert` does to a sequence with distinct keys: the keys stay
/// distinct, the pair is the last entry, `key` is bound to `value`, and every
/// other key keeps its binding.
pub proof fn lemma_upsert(entries: Seq<Entry>, key: Seq<char>, value: Seq<u8>)
    requires
        keys_distinct(entries),
    ensures
        keys_distinct(upsert(entries, key, value)),
        upsert(entries, key, value).len() > 0,
        upsert(entries, key, value).last() == (key, value),
        lookup(upsert(entries, key, value), key) == Some(value),
        forall|other: Seq<char>|
            other != key ==> #[trigger] lookup(upsert(entries, key, value), other) == lookup(
                entries,
                other,
            ),
        total_len(upsert(entries, key, value)) + (match lookup(entries, key) {
            Some(old) => old.len(),
            None => 0,
        }) == total_len(entries) + value.len(),
{
    let after = upsert(entries, key, value);
    let rest = if has_key(entries, key) {
        entries.remove(position(entries, key))
    } else {
        entries
    };
    assert(after == rest.push((key, value)));
    lemma_total_len_push(rest, (key, value));
    if has_key(entries, key) {
        let p = position(entries, key);
        lemma_total_len_remove(entries, p);
        assert forall|i: int| 0 <= i < rest.len() implies (#[trigger] rest[i]).0 != key by {
            if i < p {
                assert(rest[i] == entries[i]);
                assert(entries[i].0 != entries[p].0);
            } else {
                assert(rest[i] == entries[i + 1]);
                assert(entries[p].0 != entries[i + 1].0);
            }
        }
        assert forall|i: int, j: int| 0 <= i < j < rest.len() implies (#[trigger] rest[i]).0
            != (#[trigger] rest[j]).0 by {
            let si = if i < p {
                i
            } else {
                i + 1
            };
            let sj = if j < p {
                j
            } else {
                j + 1
            };
            assert(rest[i] == entries[si]);
            assert(rest[j] == entries[sj]);
        }
    }
    assert forall|i: int, j: int| 0 <= i < j < after.len() implies (#[trigger] after[i]).0
        != (#[trigger] after[j]).0 by {
        assert(after[i] == rest[i]);
        if j < rest.len() {
            assert(after[j] == rest[j]);
        }
    }
    let last = after.len() - 1;
    assert(after[last] == (key, value));
    lemma_position_unique(after, key, last);
    assert forall|other: Seq<char>| other != key implies #[trigger] lookup(after, other) == lookup(
        entries,
        other,
    ) by {
        lemma_upsert_other(entries, key, value, other);
    }
}

/// `upsert` under one key leaves the binding of every other key alone.
pub proof fn lemma_upsert_other(
    entries: Seq<Entry>,
    key: Seq<char>,
    value: Seq<u8>,
    other: Seq<char>,
)
    requires
        keys_distinct(entries),
        other != key,
    ensures
        lookup(upsert(entries, key, value), other) == lookup(entries, other),
        has_key(upsert(entries, key, value), other) == has_key(entries, other),
{
    let after = upsert(entries, key, value);
    let p = position(entries, key);
    let removed = has_key(entries, key);
    if has_key(entries, other) {
        let q = position(entries, other);
        let q_after = if removed && p < q {
            q - 1
        } else {
            q
        };
        assert(after[q_after] == entries[q]);
        if has_key(after, other) {
            let r = position(after, other);
            assert(r < after.len() - 1);
            let r_before = if removed && p <= r {
                r + 1
            } else {
                r
            };
            assert(after[r] == entries[r_before]);
            lemma_position_unique(entries, other, r_before);
        }
    } else if has_key(after, other) {
        let r = position(after, other);
        assert(r < after.len() - 1);
        let r_before = if removed && p <= r {
            r + 1
        } else {
            r
        };
        assert(after[r] == entries[r_before]);
    }
}

/// `evictions_needed` is the least number of oldest entries whose removal
/// makes room, and it never asks for more entries than there are. Room can
/// be made whenever the value alone fits.
pub proof fn lemma_evictions_needed(entries: Seq<Entry>, need: nat, cap: nat)
    ensures
        evictions_needed(entries, need, cap) <= entries.len(),
        need <= cap ==> total_len(entries.skip(evictions_needed(entries, need, cap) as int))
            + need <= cap,
        forall|m: int|
            0 <= m < evictions_needed(entries, need, cap) ==> total_len(#[trigger] entries.skip(m))
                + need > cap,
    decreases entries.len(),
{
    let n = evictions_needed(entries, need, cap);
    if entries.len() == 0 {
        assert(entries.skip(0) =~= entries);
    } else if total_len(entries) + need <= cap {
        assert(entries.skip(0) =~= entries);
    } else {
        let rest = entries.drop_first();
        lemma_evictions_needed(rest, need, cap);
        let k = evictions_needed(rest, need, cap);
        assert(rest.skip(k as int) =~= entries.skip(n as int));
        assert forall|m: int| 0 <= m < n implies total_len(#[trigger] entries.skip(m)) + need
            > cap by {
            if m == 0 {
                assert(entries.skip(0) =~= entries);
            } else {
                assert(rest.skip(m - 1) =~= entries.skip(m));
            }
        }
    }
}

/// Recording evictions one by one gives the same record as recording them
/// together.
pub proof fn lemma_remember_step(history: Seq<Seq<char>>, evicted: Seq<Entry>, cap: nat)
    requires
        evicted.len() > 0,
    ensures
        remember_all(history, evicted, cap) == remember(
            remember_all(history, evicted.drop_last(), cap),
            evicted.last().0,
            cap,
        ),
{
    let key = evicted.last().0;
    let earlier = evicted.drop_last();
    let joined = keys_newest_first(earlier) + history;
    assert(keys_newest_first(evicted) + history =~= seq![key] + joined);
    if earlier.len() == 0 {
        assert(joined =~= history);
    } else {
        assert(keep_newest(seq![key] + keep_newest(joined, cap), cap) =~= keep_newest(
            seq![key] + joined,
            cap,
        ));
    }
}

/// Recording evictions never makes a record that was within `cap` longer
/// than `cap`, and one recorded eviction is enough to bring any record
/// within `cap`.
pub proof fn lemma_remember_all_len(history: Seq<Seq<char>>, evicted: Seq<Entry>, cap: nat)
    ensures
        history.len() <= cap ==> remember_all(history, evicted, cap).len() <= cap,
        evicted.len() > 0 ==> remember_all(history, evicted, cap).len() <= cap,
{
}

} // verus!
